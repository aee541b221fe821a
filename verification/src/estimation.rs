//! Control flow and layout of the weighted low-rank fits.
//!
//! The fits alternate between least squares for the fixed effects and
//! proximal steps for the low-rank component.  Here it is decided which cells
//! take part, how the least-squares problem is laid out, which component
//! receives what, and when an iteration ends; the arithmetic in between is the
//! caller's.
use crate::bits;
use crate::matrix::{
    lemma_extend_listing, lemma_offset_in_range, lists_units, offset, Matrix,
};
use crate::panel::{is_treated, same_shape, treated};
use vstd::prelude::*;

verus! {

/// Inner steps of the twostep fit.
pub const MAX_INNER_ITER: usize = 10;

/// Inner steps of the twostep fit under a small penalty.
pub const MAX_INNER_ITER_HIGH: usize = 50;

/// Inner steps of the joint fit.
pub const MAX_JOINT_INNER_ITER: usize = 20;

/// Inner steps of the joint fit under a small penalty.
pub const MAX_JOINT_INNER_ITER_HIGH: usize = 100;

/// `0.1`: penalties below this are small.
pub const SMALL_PENALTY: u64 = 0x3FB9_9999_9999_999A;

/// `1e-10`: singular values up to this are dropped.
pub const SVD_TRUNCATION_TOL: u64 = 0x3DDB_7CDF_D9D7_BDBB;

/// `1e-10`: total weights below this leave nothing to fit.
pub const WEIGHT_SUM_TOL: u64 = 0x3DDB_7CDF_D9D7_BDBB;

/// Cell `(t, i)` takes part in a fit: it is marked as control, it is not the
/// one left out, and its outcome is finite.
pub open spec fn fitted_cell(
    y: &Matrix<u64>,
    control_mask: &Matrix<u8>,
    exclude: Option<(usize, usize)>,
    t: usize,
    i: usize,
) -> bool {
    &&& bits::finite(y.at(t as int, i as int))
    &&& control_mask.at(t as int, i as int) != 0
    &&& exclude != Some((t, i))
}

/// Cells that take part in a fit.
pub fn valid_mask(
    y: &Matrix<u64>,
    control_mask: &Matrix<u8>,
    exclude: Option<(usize, usize)>,
) -> (r: Matrix<bool>)
    requires
        same_shape(y, control_mask),
    ensures
        same_shape(&r, y),
        forall|t: usize, i: usize|
            t < y.rows && i < y.cols ==> #[trigger] r.at(t as int, i as int) == fitted_cell(
                y,
                control_mask,
                exclude,
                t,
                i,
            ),
{
    assert(y.data.len() == y.rows * y.cols);
    let f = |t: usize, i: usize| -> (b: bool)
        requires
            same_shape(y, control_mask),
            y.has(t, i),
        ensures
            b == fitted_cell(y, control_mask, exclude, t, i),
    {
        let left_out: bool = match exclude {
            Some((a, b)) => a == t && b == i,
            None => false,
        };
        bits::is_finite(y.get(t, i)) && control_mask.get(t, i) != 0 && !left_out
    };
    Matrix::build(y.rows, y.cols, f)
}

/// The cell left out of a fit takes no part in it, and leaving it out changes
/// nothing else.
pub proof fn law_exclusion(
    y: &Matrix<u64>,
    control_mask: &Matrix<u8>,
    cell: (usize, usize),
    t: usize,
    i: usize,
)
    ensures
        !fitted_cell(y, control_mask, Some(cell), cell.0, cell.1),
        (t, i) != cell ==> fitted_cell(y, control_mask, Some(cell), t, i) == fitted_cell(
            y,
            control_mask,
            None,
            t,
            i,
        ),
{
}

/// `r` is `a` where the mask is set and `b` elsewhere.
pub open spec fn overlaid(
    r: &Matrix<u64>,
    mask: &Matrix<bool>,
    a: &Matrix<u64>,
    b: &Matrix<u64>,
) -> bool {
    &&& same_shape(r, mask)
    &&& forall|t: usize, i: usize|
        t < mask.rows && i < mask.cols ==> #[trigger] r.at(t as int, i as int) == if mask.at(
            t as int,
            i as int,
        ) {
            a.at(t as int, i as int)
        } else {
            b.at(t as int, i as int)
        }
}

/// Takes `a` where the mask is set and `b` elsewhere.  With the residuals for
/// `a` and the low-rank component for `b` this is the closed-form update under
/// a zero penalty, and the target of a proximal step under a positive one.
pub fn overlay(mask: &Matrix<bool>, a: &Matrix<u64>, b: &Matrix<u64>) -> (r: Matrix<u64>)
    requires
        same_shape(mask, a),
        same_shape(mask, b),
    ensures
        overlaid(&r, mask, a, b),
{
    assert(mask.data.len() == mask.rows * mask.cols);
    let f = |t: usize, i: usize| -> (v: u64)
        requires
            same_shape(mask, a),
            same_shape(mask, b),
            mask.has(t, i),
        ensures
            v == if mask.at(t as int, i as int) {
                a.at(t as int, i as int)
            } else {
                b.at(t as int, i as int)
            },
    {
        if mask.get(t, i) {
            a.get(t, i)
        } else {
            b.get(t, i)
        }
    };
    Matrix::build(mask.rows, mask.cols, f)
}

/// An update leaves the low-rank component as it was outside the fitted cells.
pub proof fn law_unfitted_cells_untouched(
    r: &Matrix<u64>,
    mask: &Matrix<bool>,
    residual: &Matrix<u64>,
    l: &Matrix<u64>,
    t: usize,
    i: usize,
)
    requires
        overlaid(r, mask, residual, l),
        t < mask.rows,
        i < mask.cols,
        !mask.at(t as int, i as int),
    ensures
        r.at(t as int, i as int) == l.at(t as int, i as int),
{
}

/// Weights with zeros outside the mask.
pub fn mask_weights(mask: &Matrix<bool>, weights: &Matrix<u64>) -> (r: Matrix<u64>)
    requires
        same_shape(mask, weights),
    ensures
        same_shape(&r, mask),
        forall|t: usize, i: usize|
            t < mask.rows && i < mask.cols ==> #[trigger] r.at(t as int, i as int) == if mask.at(
                t as int,
                i as int,
            ) {
                weights.at(t as int, i as int)
            } else {
                bits::ZERO
            },
{
    assert(mask.data.len() == mask.rows * mask.cols);
    let f = |t: usize, i: usize| -> (v: u64)
        requires
            same_shape(mask, weights),
            mask.has(t, i),
        ensures
            v == if mask.at(t as int, i as int) {
                weights.at(t as int, i as int)
            } else {
                bits::ZERO
            },
    {
        if mask.get(t, i) {
            weights.get(t, i)
        } else {
            bits::ZERO
        }
    };
    Matrix::build(mask.rows, mask.cols, f)
}

/// Cells with a finite outcome.
pub fn observed_mask(y: &Matrix<u64>) -> (r: Matrix<bool>)
    requires
        y.wf(),
    ensures
        same_shape(&r, y),
        forall|t: usize, i: usize|
            t < y.rows && i < y.cols ==> #[trigger] r.at(t as int, i as int) == bits::finite(
                y.at(t as int, i as int),
            ),
{
    assert(y.data.len() == y.rows * y.cols);
    let f = |t: usize, i: usize| -> (b: bool)
        requires
            y.has(t, i),
        ensures
            b == bits::finite(y.at(t as int, i as int)),
    { bits::is_finite(y.get(t, i)) };
    Matrix::build(y.rows, y.cols, f)
}

/// Cells with a positive weight.
pub fn active_mask(weights: &Matrix<u64>) -> (r: Matrix<bool>)
    requires
        weights.wf(),
    ensures
        same_shape(&r, weights),
        forall|t: usize, i: usize|
            t < weights.rows && i < weights.cols ==> #[trigger] r.at(t as int, i as int)
                == bits::lt(bits::ZERO, weights.at(t as int, i as int)),
{
    assert(weights.data.len() == weights.rows * weights.cols);
    let f = |t: usize, i: usize| -> (b: bool)
        requires
            weights.has(t, i),
        ensures
            b == bits::lt(bits::ZERO, weights.at(t as int, i as int)),
    { bits::less_than(bits::ZERO, weights.get(t, i)) };
    Matrix::build(weights.rows, weights.cols, f)
}

/// Cells, as row numbers of the covariates, that enter the covariate sums:
/// those whose weight is not zero or negative.
pub fn covariate_rows(weights: &Matrix<u64>) -> (r: Vec<usize>)
    requires
        weights.wf(),
    ensures
        lists_units(
            r@,
            weights.data@.len() as int,
            |k: int| !bits::le(weights.data@[k], bits::ZERO),
        ),
{
    let mut r: Vec<usize> = Vec::new();
    let mut k: usize = 0;
    while k < weights.data.len()
        invariant
            k <= weights.data@.len(),
            lists_units(
                r@,
                k as int,
                |k: int| !bits::le(weights.data@[k], bits::ZERO),
            ),
        decreases weights.data@.len() - k,
    {
        proof {
            lemma_extend_listing(
                r@,
                k,
                |k: int| !bits::le(weights.data@[k], bits::ZERO),
            );
        }
        if !bits::less_or_equal(weights.data[k], bits::ZERO) {
            r.push(k);
        }
        k = k + 1;
    }
    r
}

/// A weight total that can be divided by: the total itself where it is
/// positive, one otherwise.
pub fn safe_denominator(total: u64) -> (r: u64)
    ensures
        r == if bits::lt(bits::ZERO, total) {
            total
        } else {
            bits::ONE
        },
{
    if bits::less_than(bits::ZERO, total) {
        total
    } else {
        bits::ONE
    }
}

/// How the low-rank component is updated.
#[derive(Debug, Clone, Copy, PartialEq, Eq, Structural)]
pub enum LowRankStep {
    /// The residuals themselves: there is no penalty.
    ClosedForm,
    /// At most this many proximal steps.
    Proximal(usize),
}

/// The penalty is positive and small.
pub open spec fn small_penalty(lambda_nn: u64) -> bool {
    bits::lt(bits::ZERO, lambda_nn) && bits::lt(lambda_nn, SMALL_PENALTY)
}

/// Decides how the twostep fit updates the low-rank component.
pub fn twostep_low_rank_step(lambda_nn: u64) -> (r: LowRankStep)
    ensures
        r == if bits::le(lambda_nn, bits::ZERO) {
            LowRankStep::ClosedForm
        } else if small_penalty(lambda_nn) {
            LowRankStep::Proximal(MAX_INNER_ITER_HIGH)
        } else {
            LowRankStep::Proximal(MAX_INNER_ITER)
        },
{
    if bits::less_or_equal(lambda_nn, bits::ZERO) {
        LowRankStep::ClosedForm
    } else if bits::less_than(bits::ZERO, lambda_nn) && bits::less_than(
        lambda_nn,
        SMALL_PENALTY,
    ) {
        LowRankStep::Proximal(MAX_INNER_ITER_HIGH)
    } else {
        LowRankStep::Proximal(MAX_INNER_ITER)
    }
}

/// Most proximal steps of one update in the joint fit.
pub fn joint_inner_cap(lambda_nn: u64) -> (r: usize)
    ensures
        r == if small_penalty(lambda_nn) {
            MAX_JOINT_INNER_ITER_HIGH
        } else {
            MAX_JOINT_INNER_ITER
        },
{
    if bits::less_than(bits::ZERO, lambda_nn) && bits::less_than(lambda_nn, SMALL_PENALTY) {
        MAX_JOINT_INNER_ITER_HIGH
    } else {
        MAX_JOINT_INNER_ITER
    }
}

/// Larger of two numbers; NaN is passed over.
pub open spec fn larger_of(a: u64, b: u64) -> u64 {
    if bits::nan(a) {
        b
    } else if bits::lt(a, b) {
        b
    } else {
        a
    }
}

fn larger(a: u64, b: u64) -> (r: u64)
    ensures
        r == larger_of(a, b),
{
    if bits::is_nan(a) {
        b
    } else if bits::less_than(a, b) {
        b
    } else {
        a
    }
}

/// Largest change of any block of parameters over an iteration.
#[derive(Debug, Clone, Copy, PartialEq, Eq, Structural)]
pub struct Changes {
    pub alpha: u64,
    pub beta: u64,
    pub low_rank: u64,
    /// Zero where there are no covariates.
    pub gamma: u64,
}

pub open spec fn largest_change(c: Changes) -> u64 {
    larger_of(larger_of(larger_of(c.alpha, c.beta), c.low_rank), c.gamma)
}

/// Iterations of a fit: how many were made, and whether the last one settled.
#[derive(Debug, Clone, Copy, PartialEq, Eq, Structural)]
pub struct Iterations {
    pub done: usize,
    pub converged: bool,
}

impl Iterations {
    pub fn new() -> (r: Iterations)
        ensures
            r == (Iterations { done: 0, converged: false }),
    {
        Iterations { done: 0, converged: false }
    }

    /// Another iteration is due.
    pub open spec fn due(&self, max_iter: usize) -> bool {
        !self.converged && self.done < max_iter
    }

    /// Whether another iteration is due.
    pub fn continues(&self, max_iter: usize) -> (r: bool)
        ensures
            r == self.due(max_iter),
    {
        !self.converged && self.done < max_iter
    }

    /// Takes in an iteration: it settled if no block changed by the tolerance
    /// or more.
    pub fn record(&mut self, changes: Changes, tol: u64)
        requires
            old(self).done < usize::MAX,
            !old(self).converged,
        ensures
            final(self).done == old(self).done + 1,
            final(self).converged == bits::lt(largest_change(changes), tol),
    {
        self.done = self.done + 1;
        let change: u64 = larger(
            larger(larger(changes.alpha, changes.beta), changes.low_rank),
            changes.gamma,
        );
        self.converged = bits::less_than(change, tol);
    }
}

/// An iteration settles exactly when every block changed by less than the
/// tolerance.
pub proof fn law_converged_means_all_blocks(c: Changes, tol: u64)
    requires
        !bits::nan(c.alpha),
        !bits::nan(c.beta),
        !bits::nan(c.low_rank),
        !bits::nan(c.gamma),
    ensures
        bits::lt(largest_change(c), tol) <==> bits::lt(c.alpha, tol) && bits::lt(c.beta, tol)
            && bits::lt(c.low_rank, tol) && bits::lt(c.gamma, tol),
{
}

/// What follows a proximal step.
#[derive(Debug, Clone, Copy, PartialEq, Eq, Structural)]
pub struct StepOutcome {
    /// The momentum is dropped.
    pub restart: bool,
    /// The inner iteration ends.
    pub settled: bool,
}

/// Decides what follows a proximal step: the momentum is dropped where the
/// step turned against it (`overlap` is positive), and the inner iteration
/// ends once the component changed by less than the tolerance.
pub fn after_proximal_step(overlap: u64, change: u64, tol: u64) -> (r: StepOutcome)
    ensures
        r == (StepOutcome {
            restart: bits::lt(bits::ZERO, overlap),
            settled: bits::lt(change, tol),
        }),
{
    StepOutcome {
        restart: bits::less_than(bits::ZERO, overlap),
        settled: bits::less_than(change, tol),
    }
}

/// How a matrix is soft-thresholded.
#[derive(Debug, Clone, Copy, PartialEq, Eq, Structural)]
pub enum Shrinkage {
    /// The matrix is returned as it is.
    Identity,
    /// The result is zero.
    Zero,
    /// The singular values are needed.
    Decompose,
}

/// Decides how a matrix is soft-thresholded: a threshold that is not positive
/// changes nothing, and a matrix that is not finite is replaced by zero.
pub open spec fn shrinkage_of(m: Seq<u64>, threshold: u64) -> Shrinkage {
    if bits::le(threshold, bits::ZERO) {
        Shrinkage::Identity
    } else if exists|k: int| 0 <= k < m.len() && !bits::finite(#[trigger] m[k]) {
        Shrinkage::Zero
    } else {
        Shrinkage::Decompose
    }
}

/// Decides how a matrix is soft-thresholded.
pub fn shrinkage(m: &Vec<u64>, threshold: u64) -> (r: Shrinkage)
    ensures
        r == shrinkage_of(m@, threshold),
{
    if bits::less_or_equal(threshold, bits::ZERO) {
        return Shrinkage::Identity;
    }
    if all_finite(m) {
        Shrinkage::Decompose
    } else {
        Shrinkage::Zero
    }
}

fn all_finite(m: &Vec<u64>) -> (r: bool)
    ensures
        r <==> forall|k: int| 0 <= k < m@.len() ==> bits::finite(#[trigger] m@[k]),
{
    let mut k: usize = 0;
    while k < m.len()
        invariant
            k <= m@.len(),
            forall|j: int| 0 <= j < k ==> bits::finite(#[trigger] m@[j]),
        decreases m@.len() - k,
    {
        if !bits::is_finite(m[k]) {
            return false;
        }
        k = k + 1;
    }
    true
}

/// `kept` are the components whose shrunk singular value exceeds the
/// truncation tolerance.
pub open spec fn lists_components(kept: Seq<usize>, shrunk: Seq<u64>) -> bool {
    lists_units(kept, shrunk.len() as int, |k: int| bits::lt(SVD_TRUNCATION_TOL, shrunk[k]))
}

/// The singular values are finite, and a component survives.
pub open spec fn components_survive(singular: Seq<u64>, shrunk: Seq<u64>) -> bool {
    &&& forall|k: int| 0 <= k < singular.len() ==> bits::finite(#[trigger] singular[k])
    &&& exists|k: int| 0 <= k < shrunk.len() && bits::lt(SVD_TRUNCATION_TOL, #[trigger] shrunk[k])
}

/// Components that survive soft-thresholding: those whose shrunk singular
/// value exceeds the truncation tolerance; `None` where a singular value is
/// not finite or none survives, so that the result is zero.
pub fn retained_components(singular: &Vec<u64>, shrunk: &Vec<u64>) -> (r: Option<Vec<usize>>)
    ensures
        r is Some ==> lists_components(r->0@, shrunk@) && r->0@.len() > 0,
        r is Some <==> components_survive(singular@, shrunk@),
{
    if !all_finite(singular) {
        return None;
    }
    let mut kept: Vec<usize> = Vec::new();
    let mut k: usize = 0;
    while k < shrunk.len()
        invariant
            k <= shrunk@.len(),
            lists_units(
                kept@,
                k as int,
                |k: int| bits::lt(SVD_TRUNCATION_TOL, shrunk@[k]),
            ),
        decreases shrunk@.len() - k,
    {
        proof {
            lemma_extend_listing(
                kept@,
                k,
                |k: int| bits::lt(SVD_TRUNCATION_TOL, shrunk@[k]),
            );
        }
        if bits::less_than(SVD_TRUNCATION_TOL, shrunk[k]) {
            kept.push(k);
        }
        k = k + 1;
    }
    if kept.len() == 0 {
        proof {
            assert forall|j: int| 0 <= j < shrunk@.len() implies !bits::lt(
                SVD_TRUNCATION_TOL,
                #[trigger] shrunk@[j],
            ) by {
                if bits::lt(SVD_TRUNCATION_TOL, shrunk@[j]) {
                    assert(kept@.contains(j as usize));
                }
            }
        }
        None
    } else {
        proof {
            let j = kept@[0] as int;
            assert(bits::lt(SVD_TRUNCATION_TOL, shrunk@[j]));
        }
        Some(kept)
    }
}

/// Values of the cells of a panel, by period and within a period by unit; zero
/// where the outcome or the weight of a cell is not finite.
pub open spec fn regression_values(y: &Matrix<u64>, delta: &Matrix<u64>, v: Seq<u64>) -> Seq<u64> {
    Seq::new(
        y.data@.len(),
        |k: int|
            if bits::finite(y.data@[k]) && bits::finite(delta.data@[k]) {
                v[k]
            } else {
                bits::ZERO
            },
    )
}

/// Outcomes and weights of the cells of a panel, by period and within a period
/// by unit; a cell whose outcome or weight is not finite has neither.
pub fn regression_cells(y: &Matrix<u64>, delta: &Matrix<u64>) -> (r: (Vec<u64>, Vec<u64>))
    requires
        same_shape(y, delta),
    ensures
        r.0@ == regression_values(y, delta, y.data@),
        r.1@ == regression_values(y, delta, delta.data@),
{
    let mut outcomes: Vec<u64> = Vec::new();
    let mut weights: Vec<u64> = Vec::new();
    let mut k: usize = 0;
    while k < y.data.len()
        invariant
            k <= y.data@.len(),
            y.data@.len() == delta.data@.len(),
            outcomes@.len() == k,
            weights@.len() == k,
            forall|j: int|
                0 <= j < k ==> #[trigger] outcomes@[j] == if bits::finite(y.data@[j])
                    && bits::finite(delta.data@[j]) {
                    y.data@[j]
                } else {
                    bits::ZERO
                },
            forall|j: int|
                0 <= j < k ==> #[trigger] weights@[j] == if bits::finite(y.data@[j])
                    && bits::finite(delta.data@[j]) {
                    delta.data@[j]
                } else {
                    bits::ZERO
                },
        decreases y.data@.len() - k,
    {
        if bits::is_finite(y.data[k]) && bits::is_finite(delta.data[k]) {
            outcomes.push(y.data[k]);
            weights.push(delta.data[k]);
        } else {
            outcomes.push(bits::ZERO);
            weights.push(bits::ZERO);
        }
        k = k + 1;
    }
    (outcomes, weights)
}

/// Whether the total weight leaves something to fit.
pub fn has_weight(total: u64) -> (r: bool)
    ensures
        r == !bits::lt(total, WEIGHT_SUM_TOL),
{
    !bits::less_than(total, WEIGHT_SUM_TOL)
}

/// Layout of the least-squares problem of the joint fit.  The columns are the
/// intercept, a dummy for every unit but the first, a dummy for every period
/// but the first, and the covariates; the rows are the cells of the panel.
#[derive(Debug, Clone, Copy, PartialEq, Eq, Structural)]
pub struct Design {
    pub n_periods: usize,
    pub n_units: usize,
    pub n_cov: usize,
}

/// What a column of the design stands for.
pub enum Column {
    Intercept,
    Unit(int),
    Period(int),
    Covariate(int),
}

impl Design {
    /// There is a unit and a period, and the design fits in memory.
    pub open spec fn wf(&self) -> bool {
        &&& self.n_units >= 1
        &&& self.n_periods >= 1
        &&& self.rows() * self.params() <= usize::MAX
    }

    /// Number of rows.
    pub open spec fn rows(&self) -> int {
        self.n_periods * self.n_units
    }

    /// Number of columns.
    pub open spec fn params(&self) -> int {
        1 + (self.n_units - 1) + (self.n_periods - 1) + self.n_cov
    }

    /// What column `c` stands for.
    pub open spec fn column(&self, c: int) -> Column {
        if c == 0 {
            Column::Intercept
        } else if c < self.n_units {
            Column::Unit(c)
        } else if c < self.n_units + self.n_periods - 1 {
            Column::Period(c - (self.n_units - 1))
        } else {
            Column::Covariate(c - (self.n_units + self.n_periods - 1))
        }
    }

    /// Entry of the design in the row of cell `(t, i)` and column `c`, where
    /// `sw` is the square root of the weight of the cell and `wx` the covariates
    /// of the cell times it.
    pub open spec fn entry(&self, t: int, i: int, c: int, sw: u64, wx: Seq<u64>) -> u64 {
        match self.column(c) {
            Column::Intercept => sw,
            Column::Unit(j) => if i == j {
                sw
            } else {
                bits::ZERO
            },
            Column::Period(s) => if t == s {
                sw
            } else {
                bits::ZERO
            },
            Column::Covariate(p) => wx[p],
        }
    }

    /// `a` is the design matrix, stored column by column, for the square roots
    /// `roots` of the weights of the cells and the covariates times them.
    pub open spec fn fills(&self, a: Seq<u64>, roots: Seq<u64>, weighted_x: &Matrix<u64>) -> bool {
        &&& a.len() == self.params() * self.rows()
        &&& forall|t: usize, i: usize, c: usize|
            #![trigger offset(self.rows(), c as int, offset(self.n_units as int, t as int, i as int))]
            t < self.n_periods && i < self.n_units && c < self.params() ==> a[offset(
                self.rows(),
                c as int,
                offset(self.n_units as int, t as int, i as int),
            )] == self.entry(
                t as int,
                i as int,
                c as int,
                roots[offset(self.n_units as int, t as int, i as int)],
                Seq::new(
                    self.n_cov as nat,
                    |p: int|
                        weighted_x.at(offset(self.n_units as int, t as int, i as int), p),
                ),
            )
    }

    /// Number of columns.
    pub fn n_params(&self) -> (r: usize)
        requires
            self.wf(),
        ensures
            r == self.params(),
    {
        proof {
            self.lemma_sizes();
        }
        1 + (self.n_units - 1) + (self.n_periods - 1) + self.n_cov
    }

    proof fn lemma_sizes(&self)
        requires
            self.wf(),
        ensures
            1 <= self.rows() <= usize::MAX,
            1 <= self.params() <= usize::MAX,
    {
        let (a, b) = (self.rows(), self.params());
        assert(a >= 1) by (nonlinear_arith)
            requires
                a == self.n_periods * self.n_units,
                self.n_periods >= 1,
                self.n_units >= 1,
        ;
        assert(a <= a * b && b <= a * b) by (nonlinear_arith)
            requires
                a >= 1,
                b >= 1,
        ;
    }

    /// Design matrix, stored column by column.  `root_weights` holds the
    /// square roots of the weights of the cells, and `weighted_x` the
    /// covariates times them, one row per cell.
    pub fn matrix(&self, root_weights: &Vec<u64>, weighted_x: &Matrix<u64>) -> (r: Vec<u64>)
        requires
            self.wf(),
            root_weights@.len() == self.rows(),
            weighted_x.wf(),
            weighted_x.rows == self.rows(),
            weighted_x.cols == self.n_cov,
        ensures
            self.fills(r@, root_weights@, weighted_x),
    {
        proof {
            self.lemma_sizes();
            assert(self.params() * self.rows() == self.rows() * self.params())
                by (nonlinear_arith);
        }
        let n_obs: usize = self.n_periods * self.n_units;
        let n_params: usize = self.n_params();
        let n_units: usize = self.n_units;
        let base: usize = n_units + (self.n_periods - 1);
        let f = |c: usize, k: usize| -> (v: u64)
            requires
                self.wf() && n_units == self.n_units && base == self.n_units + self.n_periods - 1
                    && c < self.params() && k < self.rows() && root_weights@.len() == self.rows()
                    && weighted_x.wf() && weighted_x.rows == self.rows() && weighted_x.cols
                    == self.n_cov,
            ensures
                v == self.entry(
                    k as int / self.n_units as int,
                    k as int % self.n_units as int,
                    c as int,
                    root_weights@[k as int],
                    Seq::new(self.n_cov as nat, |p: int| weighted_x.at(k as int, p)),
                ),
        {
            let t: usize = k / n_units;
            let i: usize = k % n_units;
            if c == 0 {
                root_weights[k]
            } else if c < n_units {
                if i == c {
                    root_weights[k]
                } else {
                    bits::ZERO
                }
            } else if c < base {
                if t == c - (n_units - 1) {
                    root_weights[k]
                } else {
                    bits::ZERO
                }
            } else {
                weighted_x.get(k, c - base)
            }
        };
        let m: Matrix<u64> = Matrix::build(n_params, n_obs, f);
        proof {
            assert forall|t: usize, i: usize, c: usize|
                #![trigger offset(self.rows(), c as int, offset(self.n_units as int, t as int, i as int))]
                t < self.n_periods && i < self.n_units && c < self.params() implies m.data@[offset(
                self.rows(),
                c as int,
                offset(self.n_units as int, t as int, i as int),
            )] == self.entry(
                t as int,
                i as int,
                c as int,
                root_weights@[offset(self.n_units as int, t as int, i as int)],
                Seq::new(
                    self.n_cov as nat,
                    |p: int| weighted_x.at(offset(self.n_units as int, t as int, i as int), p),
                ),
            ) by {
                let k = offset(self.n_units as int, t as int, i as int);
                lemma_offset_in_range(
                    self.n_periods as int,
                    self.n_units as int,
                    t as int,
                    i as int,
                );
                vstd::arithmetic::div_mod::lemma_fundamental_div_mod_converse(
                    k,
                    self.n_units as int,
                    t as int,
                    i as int,
                );
                assert(m.at(c as int, k as usize as int) == m.data@[offset(
                    self.rows(),
                    c as int,
                    k,
                )]);
                assert(call_ensures(f, (c, k as usize), m.at(c as int, k as usize as int)));
            }
        }
        m.data
    }

    /// Coefficients of the joint fit out of a least-squares solution.
    pub fn split(&self, solution: &Vec<u64>) -> (r: JointCoefficients)
        requires
            self.wf(),
            solution@.len() >= self.params(),
        ensures
            r.splits(*self, solution@),
    {
        proof {
            self.lemma_sizes();
        }
        let mut alpha: Vec<u64> = Vec::new();
        alpha.push(bits::ZERO);
        let mut i: usize = 1;
        while i < self.n_units
            invariant
                1 <= i <= self.n_units,
                self.params() <= solution@.len(),
                self.n_periods >= 1,
                alpha@.len() == i,
                alpha@[0] == bits::ZERO,
                forall|j: int| 1 <= j < i ==> #[trigger] alpha@[j] == solution@[j],
            decreases self.n_units - i,
        {
            alpha.push(solution[i]);
            i = i + 1;
        }
        let mut beta: Vec<u64> = Vec::new();
        beta.push(bits::ZERO);
        let mut t: usize = 1;
        while t < self.n_periods
            invariant
                1 <= t <= self.n_periods,
                self.params() <= solution@.len(),
                self.params() <= usize::MAX,
                self.n_units >= 1,
                beta@.len() == t,
                beta@[0] == bits::ZERO,
                forall|s: int|
                    1 <= s < t ==> #[trigger] beta@[s] == solution@[(self.n_units - 1) + s],
            decreases self.n_periods - t,
        {
            beta.push(solution[(self.n_units - 1) + t]);
            t = t + 1;
        }
        let gamma: Option<Vec<u64>> = if self.n_cov > 0 {
            let base: usize = self.n_units + (self.n_periods - 1);
            let mut g: Vec<u64> = Vec::new();
            let mut p: usize = 0;
            while p < self.n_cov
                invariant
                    p <= self.n_cov,
                    self.params() <= solution@.len(),
                    self.params() <= usize::MAX,
                    self.n_units >= 1,
                    self.n_periods >= 1,
                    base == self.n_units + self.n_periods - 1,
                    g@.len() == p,
                    forall|q: int| 0 <= q < p ==> #[trigger] g@[q] == solution@[base + q],
                decreases self.n_cov - p,
            {
                g.push(solution[base + p]);
                p = p + 1;
            }
            Some(g)
        } else {
            None
        };
        JointCoefficients { mu: solution[0], alpha, beta, gamma }
    }
}

/// Coefficients of the joint fit.
#[derive(Debug)]
pub struct JointCoefficients {
    pub mu: u64,
    pub alpha: Vec<u64>,
    pub beta: Vec<u64>,
    pub gamma: Option<Vec<u64>>,
}

impl JointCoefficients {
    /// These are the coefficients that a least-squares solution stands for; the
    /// first unit and the first period are the reference.
    pub open spec fn splits(&self, design: Design, solution: Seq<u64>) -> bool {
        &&& self.mu == solution[0]
        &&& self.alpha@.len() == design.n_units
        &&& self.beta@.len() == design.n_periods
        &&& self.alpha@[0] == bits::ZERO
        &&& self.beta@[0] == bits::ZERO
        &&& self.gamma is Some <==> design.n_cov > 0
        &&& self.gamma is Some ==> self.gamma->0@.len() == design.n_cov
        &&& forall|c: int|
            1 <= c < design.params() ==> match design.column(c) {
                Column::Intercept => true,
                Column::Unit(j) => self.alpha@[j] == #[trigger] solution[c],
                Column::Period(s) => self.beta@[s] == solution[c],
                Column::Covariate(p) => self.gamma is Some && self.gamma->0@[p] == solution[c],
            }
    }
}

/// Every unit but the first, every period but the first and every covariate
/// has a column of its own.
pub proof fn law_design_columns(design: Design, i: int, t: int, p: int)
    requires
        design.wf(),
        1 <= i < design.n_units,
        1 <= t < design.n_periods,
        0 <= p < design.n_cov,
    ensures
        design.column(0) == Column::Intercept,
        0 < i < design.params() && design.column(i) == Column::Unit(i),
        0 < design.n_units - 1 + t < design.params() && design.column(design.n_units - 1 + t)
            == Column::Period(t),
        0 < design.n_units + design.n_periods - 1 + p < design.params() && design.column(
            design.n_units + design.n_periods - 1 + p,
        ) == Column::Covariate(p),
{
}

/// In the row of a cell, the dummies that are set are those of its own unit and
/// its own period.
pub proof fn law_design_row(design: Design, t: int, i: int, c: int, sw: u64, wx: Seq<u64>)
    requires
        design.wf(),
        0 <= t < design.n_periods,
        0 <= i < design.n_units,
        0 <= c < design.n_units + design.n_periods - 1,
        sw != bits::ZERO,
    ensures
        design.entry(t, i, c, sw, wx) != bits::ZERO <==> c == 0 || c == i || c == design.n_units - 1
            + t && t > 0,
{
}

/// Values followed by zeros, `len` in all.
pub open spec fn padded(values: Seq<u64>, len: nat) -> Seq<u64> {
    Seq::new(
        len,
        |k: int|
            if k < values.len() {
                values[k]
            } else {
                bits::ZERO
            },
    )
}

/// Response of the least-squares problem, padded with zeros to `len`.
pub fn pad_response(values: &Vec<u64>, len: usize) -> (r: Vec<u64>)
    requires
        values@.len() <= len,
    ensures
        r@ == padded(values@, len as nat),
{
    let mut r: Vec<u64> = Vec::new();
    let mut k: usize = 0;
    while k < len
        invariant
            k <= len,
            r@.len() == k,
            forall|j: int|
                0 <= j < k ==> #[trigger] r@[j] == if j < values@.len() {
                    values@[j]
                } else {
                    bits::ZERO
                },
        decreases len - k,
    {
        if k < values.len() {
            r.push(values[k]);
        } else {
            r.push(bits::ZERO);
        }
        k = k + 1;
    }
    r
}

/// Weights vanish, or are not finite, at every treated cell.
pub open spec fn masked_at_treated(d: &Matrix<u64>, delta: &Matrix<u64>) -> bool {
    forall|t: usize, i: usize|
        t < d.rows && i < d.cols && #[trigger] treated(d, t as int, i as int) ==> !bits::finite(
            delta.at(t as int, i as int),
        ) || bits::zero(delta.at(t as int, i as int))
}

/// Checks that weights vanish at every treated cell, so that no treated
/// outcome enters a fit.
pub fn delta_is_masked(d: &Matrix<u64>, delta: &Matrix<u64>) -> (r: bool)
    requires
        same_shape(d, delta),
    ensures
        r == masked_at_treated(d, delta),
{
    let mut t: usize = 0;
    while t < d.rows
        invariant
            same_shape(d, delta),
            t <= d.rows,
            forall|a: usize, b: usize|
                a < t && b < d.cols && #[trigger] treated(d, a as int, b as int) ==> !bits::finite(
                    delta.at(a as int, b as int),
                ) || bits::zero(delta.at(a as int, b as int)),
        decreases d.rows - t,
    {
        let mut i: usize = 0;
        while i < d.cols
            invariant
                same_shape(d, delta),
                t < d.rows,
                i <= d.cols,
                forall|a: usize, b: usize|
                    (a < t && b < d.cols || a == t && b < i) && #[trigger] treated(
                        d,
                        a as int,
                        b as int,
                    ) ==> !bits::finite(delta.at(a as int, b as int)) || bits::zero(
                        delta.at(a as int, b as int),
                    ),
            decreases d.cols - i,
        {
            let w: u64 = delta.get(t, i);
            if is_treated(d, t, i) && bits::is_finite(w) && !bits::is_zero(w) {
                assert(treated(d, t as int, i as int));
                return false;
            }
            i = i + 1;
        }
        t = t + 1;
    }
    true
}

/// A cell takes part in a fit exactly where its outcome is finite, it is marked
/// as control and it is not the one left out.
pub proof fn law_every_control_cell_is_fitted(
    y: &Matrix<u64>,
    control_mask: &Matrix<u8>,
    exclude: Option<(usize, usize)>,
    r: Matrix<bool>,
    t: usize,
    i: usize,
)
    requires
        call_ensures(valid_mask, (y, control_mask, exclude), r),
        t < y.rows,
        i < y.cols,
    ensures
        r.rows == y.rows,
        r.cols == y.cols,
        r.at(t as int, i as int) <==> bits::finite(y.at(t as int, i as int)) && control_mask.at(
            t as int,
            i as int,
        ) != 0 && exclude != Some((t, i)),
{
}

/// An overlay takes each cell from one of the two tables, by the mask.
pub proof fn law_overlay(
    mask: &Matrix<bool>,
    a: &Matrix<u64>,
    b: &Matrix<u64>,
    r: Matrix<u64>,
    t: usize,
    i: usize,
)
    requires
        call_ensures(overlay, (mask, a, b), r),
        t < mask.rows,
        i < mask.cols,
    ensures
        r.rows == mask.rows,
        r.cols == mask.cols,
        mask.at(t as int, i as int) ==> r.at(t as int, i as int) == a.at(t as int, i as int),
        !mask.at(t as int, i as int) ==> r.at(t as int, i as int) == b.at(t as int, i as int),
{
}

/// Masked weights are the weights inside the mask and zero outside.
pub proof fn law_masked_weights(
    mask: &Matrix<bool>,
    weights: &Matrix<u64>,
    r: Matrix<u64>,
    t: usize,
    i: usize,
)
    requires
        call_ensures(mask_weights, (mask, weights), r),
        t < mask.rows,
        i < mask.cols,
    ensures
        mask.at(t as int, i as int) ==> r.at(t as int, i as int) == weights.at(t as int, i as int),
        !mask.at(t as int, i as int) ==> r.at(t as int, i as int) == bits::ZERO,
{
}

/// Every cell whose weight is not zero or negative enters the covariate sums,
/// once, and no other does.
pub proof fn law_covariate_rows(weights: &Matrix<u64>, r: Vec<usize>)
    requires
        call_ensures(covariate_rows, (weights,), r),
    ensures
        forall|k: usize|
            #![trigger r@.contains(k)]
            r@.contains(k) <==> k < weights.data@.len() && !bits::le(
                weights.data@[k as int],
                bits::ZERO,
            ),
        forall|j: int, k: int| 0 <= j < k < r@.len() ==> #[trigger] r@[j] < #[trigger] r@[k],
{
    assert forall|k: usize|
        #![trigger r@.contains(k)]
        r@.contains(k) <==> k < weights.data@.len() && !bits::le(
            weights.data@[k as int],
            bits::ZERO,
        ) by {
        if r@.contains(k) {
            let j = choose|j: int| 0 <= j < r@.len() && r@[j] == k;
            assert(r@[j] < weights.data@.len());
        }
    }
}

/// The low-rank component of the twostep fit has a closed form exactly under a
/// penalty that is zero or negative; otherwise it takes up to fifty steps under
/// a positive penalty below `0.1`, and up to ten under any other.
pub proof fn law_twostep_inner_steps(lambda_nn: u64, r: LowRankStep)
    requires
        call_ensures(twostep_low_rank_step, (lambda_nn,), r),
    ensures
        r == LowRankStep::ClosedForm <==> bits::le(lambda_nn, bits::ZERO),
        r == LowRankStep::Proximal(50) <==> bits::lt(bits::ZERO, lambda_nn) && bits::lt(
            lambda_nn,
            0x3FB9_9999_9999_999A,
        ),
        r == LowRankStep::Proximal(10) <==> bits::nan(lambda_nn) || bits::le(
            0x3FB9_9999_9999_999A,
            lambda_nn,
        ),
{
}

/// The joint fit takes up to a hundred inner steps under a positive penalty below
/// `0.1`, and up to twenty under any other.
pub proof fn law_joint_inner_steps(lambda_nn: u64, r: usize)
    requires
        call_ensures(joint_inner_cap, (lambda_nn,), r),
    ensures
        r == 100 <==> bits::lt(bits::ZERO, lambda_nn) && bits::lt(
            lambda_nn,
            0x3FB9_9999_9999_999A,
        ),
        r == 100 || r == 20,
{
}

/// An iteration settles exactly where some block has a change that is a number,
/// and every such change is below the tolerance.
pub proof fn law_settling_looks_at_every_block(c: Changes, tol: u64)
    ensures
        bits::lt(largest_change(c), tol) <==> {
            &&& bits::nan(c.alpha) || bits::lt(c.alpha, tol)
            &&& bits::nan(c.beta) || bits::lt(c.beta, tol)
            &&& bits::nan(c.low_rank) || bits::lt(c.low_rank, tol)
            &&& bits::nan(c.gamma) || bits::lt(c.gamma, tol)
            &&& !bits::nan(c.alpha) || !bits::nan(c.beta) || !bits::nan(c.low_rank) || !bits::nan(
                c.gamma,
            )
        },
{
}

/// A further iteration is due exactly while the last one did not settle and the
/// limit is not reached.
pub proof fn law_iteration_due(it: &Iterations, max_iter: usize, r: bool)
    requires
        call_ensures(Iterations::continues, (it, max_iter), r),
    ensures
        r <==> it.done < max_iter && !it.converged,
{
}

/// A matrix is returned as it is exactly under a threshold that is zero or
/// negative; under any other, it becomes zero exactly where an entry, wherever it
/// stands, is not finite.
pub proof fn law_shrinkage(m: &Vec<u64>, threshold: u64, r: Shrinkage)
    requires
        call_ensures(shrinkage, (m, threshold), r),
    ensures
        r == Shrinkage::Identity <==> bits::le(threshold, bits::ZERO),
        r == Shrinkage::Decompose <==> !bits::le(threshold, bits::ZERO) && (forall|k: int|
            0 <= k < m@.len() ==> bits::finite(#[trigger] m@[k])),
{
}

/// Every component whose shrunk singular value exceeds the truncation tolerance
/// is kept, in order, and no other; the result is zero only where a singular
/// value is not finite or no shrunk one, at any index, exceeds the tolerance.
pub proof fn law_every_large_component_is_kept(
    singular: &Vec<u64>,
    shrunk: &Vec<u64>,
    r: Option<Vec<usize>>,
)
    requires
        call_ensures(retained_components, (singular, shrunk), r),
    ensures
        r is None <==> (exists|k: int|
            0 <= k < singular@.len() && !bits::finite(#[trigger] singular@[k])) || (forall|k: int|
            0 <= k < shrunk@.len() ==> !bits::lt(SVD_TRUNCATION_TOL, #[trigger] shrunk@[k])),
        r matches Some(kept) ==> {
            &&& forall|k: usize|
                #![trigger kept@.contains(k)]
                kept@.contains(k) <==> k < shrunk@.len() && bits::lt(
                    SVD_TRUNCATION_TOL,
                    shrunk@[k as int],
                )
            &&& forall|j: int, k: int|
                0 <= j < k < kept@.len() ==> #[trigger] kept@[j] < #[trigger] kept@[k]
        },
{
    if let Some(kept) = r {
        assert forall|k: usize|
            #![trigger kept@.contains(k)]
            kept@.contains(k) <==> k < shrunk@.len() && bits::lt(
                SVD_TRUNCATION_TOL,
                shrunk@[k as int],
            ) by {
            if kept@.contains(k) {
                let j = choose|j: int| 0 <= j < kept@.len() && kept@[j] == k;
                assert(kept@[j] < shrunk@.len());
            }
        }
    }
}

/// Where every shrunk singular value exceeds the tolerance, no component is cut
/// off, however many there are.
pub proof fn law_full_rank_is_kept(singular: &Vec<u64>, shrunk: &Vec<u64>, r: Option<Vec<usize>>)
    requires
        call_ensures(retained_components, (singular, shrunk), r),
        shrunk@.len() > 0,
        forall|k: int| 0 <= k < singular@.len() ==> bits::finite(#[trigger] singular@[k]),
        forall|k: int|
            0 <= k < shrunk@.len() ==> bits::lt(SVD_TRUNCATION_TOL, #[trigger] shrunk@[k]),
    ensures
        r is Some,
        r->0@.len() == shrunk@.len(),
        forall|k: int| 0 <= k < shrunk@.len() ==> #[trigger] r->0@[k] == k,
{
    law_every_large_component_is_kept(singular, shrunk, r);
    assert(bits::lt(SVD_TRUNCATION_TOL, shrunk@[0]));
    let kept = r->0@;
    let n = shrunk@.len() as int;
    assert(shrunk.len() == shrunk@.len());
    assert forall|k: usize| k < n implies #[trigger] kept.contains(k) by {}
    assert forall|j: int| 0 <= j < kept.len() implies (#[trigger] kept[j]) < n by {
        assert(kept.contains(kept[j]));
    }
    lemma_full_listing(kept, n, n);
    if kept.len() > n {
        lemma_listing_ahead(kept, n);
        assert(kept[n] < n);
    }
    assert forall|k: int| 0 <= k < n implies #[trigger] kept[k] == k by {}
}

proof fn lemma_listing_ahead(kept: Seq<usize>, k: int)
    requires
        0 <= k < kept.len(),
        forall|i: int, j: int| 0 <= i < j < kept.len() ==> #[trigger] kept[i] < #[trigger] kept[j],
    ensures
        kept[k] >= k,
    decreases k,
{
    if k > 0 {
        lemma_listing_ahead(kept, k - 1);
        assert(kept[k - 1] < kept[k]);
    }
}

proof fn lemma_full_listing(kept: Seq<usize>, n: int, m: int)
    requires
        0 <= m <= n <= usize::MAX,
        forall|i: int, j: int| 0 <= i < j < kept.len() ==> #[trigger] kept[i] < #[trigger] kept[j],
        forall|k: usize| k < n ==> #[trigger] kept.contains(k),
    ensures
        m <= kept.len(),
        forall|k: int| 0 <= k < m ==> #[trigger] kept[k] == k,
    decreases m,
{
    if m > 0 {
        lemma_full_listing(kept, n, m - 1);
        let k = (m - 1) as usize;
        assert(kept.contains(k));
        let j = choose|j: int| 0 <= j < kept.len() && kept[j] == k;
        lemma_listing_ahead(kept, j);
        if j < k {
            assert(kept[j] == j);
        }
    }
}

/// Each cell enters the regression with its own outcome and weight where both are
/// finite, and with zeros otherwise.
pub proof fn law_regression_cells(
    y: &Matrix<u64>,
    delta: &Matrix<u64>,
    r: (Vec<u64>, Vec<u64>),
    k: int,
)
    requires
        call_ensures(regression_cells, (y, delta), r),
        0 <= k < y.data@.len(),
    ensures
        r.0@.len() == y.data@.len(),
        r.1@.len() == y.data@.len(),
        bits::finite(y.data@[k]) && bits::finite(delta.data@[k]) ==> r.0@[k] == y.data@[k]
            && r.1@[k] == delta.data@[k],
        !bits::finite(y.data@[k]) || !bits::finite(delta.data@[k]) ==> r.0@[k] == bits::ZERO
            && r.1@[k] == bits::ZERO,
{
}

/// The design has a row for each cell and a column for the intercept, for each
/// unit but the first, for each period but the first and for each covariate.  In
/// the row of a cell stand the root of its weight in the columns of the intercept,
/// of its unit and of its period, its weighted covariates in theirs, and zeros.
pub proof fn law_design_matrix(
    design: &Design,
    roots: &Vec<u64>,
    weighted_x: &Matrix<u64>,
    r: Vec<u64>,
    t: usize,
    i: usize,
    c: usize,
)
    requires
        design.wf(),
        call_ensures(Design::matrix, (design, roots, weighted_x), r),
        t < design.n_periods,
        i < design.n_units,
        c < design.n_units + design.n_periods - 1 + design.n_cov,
    ensures
        ({
            let (n, units) = (design.n_periods * design.n_units, design.n_units as int);
            let k = t * units + i;
            let v = r@[c * n + k];
            &&& r@.len() == (units + design.n_periods - 1 + design.n_cov) * n
            &&& c == 0 ==> v == roots@[k]
            &&& 0 < c < units ==> v == if c == i {
                roots@[k]
            } else {
                bits::ZERO
            }
            &&& units <= c < units + design.n_periods - 1 ==> v == if c == units - 1 + t {
                roots@[k]
            } else {
                bits::ZERO
            }
            &&& c >= units + design.n_periods - 1 ==> v == weighted_x.at(
                k,
                c - (units + design.n_periods - 1),
            )
        }),
{
    let k = offset(design.n_units as int, t as int, i as int);
    assert(offset(design.rows(), c as int, k) == c * (design.n_periods * design.n_units) + (t
        * design.n_units + i));
}

/// A solution is read off column by column: the intercept, the units from the
/// second, the periods from the second, and the covariates; the first unit and
/// the first period have no effect.
pub proof fn law_solution_is_split(design: &Design, solution: &Vec<u64>, r: JointCoefficients)
    requires
        design.wf(),
        call_ensures(Design::split, (design, solution), r),
    ensures
        r.mu == solution@[0],
        r.alpha@.len() == design.n_units,
        r.beta@.len() == design.n_periods,
        r.alpha@[0] == bits::ZERO,
        r.beta@[0] == bits::ZERO,
        forall|i: int| 1 <= i < design.n_units ==> #[trigger] r.alpha@[i] == solution@[i],
        forall|t: int|
            1 <= t < design.n_periods ==> #[trigger] r.beta@[t] == solution@[design.n_units - 1
                + t],
        r.gamma is Some <==> design.n_cov > 0,
        r.gamma matches Some(g) ==> g@.len() == design.n_cov && forall|p: int|
            0 <= p < design.n_cov ==> #[trigger] g@[p] == solution@[design.n_units
                + design.n_periods - 1 + p],
{
    assert forall|i: int| 1 <= i < design.n_units implies #[trigger] r.alpha@[i]
        == solution@[i] by {
        assert(design.column(i) == Column::Unit(i));
    }
    assert forall|t: int| 1 <= t < design.n_periods implies #[trigger] r.beta@[t]
        == solution@[design.n_units - 1 + t] by {
        let c = design.n_units - 1 + t;
        assert(design.column(c) == Column::Period(t));
        assert(solution@[c] == solution@[c]);
    }
    if let Some(g) = r.gamma {
        assert forall|p: int| 0 <= p < design.n_cov implies #[trigger] g@[p]
            == solution@[design.n_units + design.n_periods - 1 + p] by {
            let c = design.n_units + design.n_periods - 1 + p;
            assert(design.column(c) == Column::Covariate(p));
            assert(solution@[c] == solution@[c]);
        }
    }
}

/// A padded response is the response followed by zeros.
pub proof fn law_padded_response(values: &Vec<u64>, len: usize, r: Vec<u64>, k: int)
    requires
        call_ensures(pad_response, (values, len), r),
        0 <= k < len,
    ensures
        r@.len() == len,
        k < values@.len() ==> r@[k] == values@[k],
        k >= values@.len() ==> r@[k] == bits::ZERO,
{
}

/// Weights pass the check exactly where no treated cell has a finite weight other
/// than zero.
pub proof fn law_masked_weights_vanish_at_treated(d: &Matrix<u64>, delta: &Matrix<u64>, r: bool)
    requires
        call_ensures(delta_is_masked, (d, delta), r),
    ensures
        r <==> forall|t: usize, i: usize|
            #![trigger delta.at(t as int, i as int)]
            t < d.rows && i < d.cols && bits::same(d.at(t as int, i as int), bits::ONE)
                && bits::finite(delta.at(t as int, i as int)) ==> bits::zero(
                delta.at(t as int, i as int),
            ),
{
    if r {
        assert forall|t: usize, i: usize|
            #![trigger delta.at(t as int, i as int)]
            t < d.rows && i < d.cols && bits::same(d.at(t as int, i as int), bits::ONE)
                && bits::finite(delta.at(t as int, i as int)) implies bits::zero(
            delta.at(t as int, i as int),
        ) by {
            assert(treated(d, t as int, i as int));
        }
    }
}

/// The masks of a fit: cells with a finite outcome, and cells with a positive weight.
pub proof fn law_masks(
    y: &Matrix<u64>,
    weights: &Matrix<u64>,
    observed: Matrix<bool>,
    active: Matrix<bool>,
    t: usize,
    i: usize,
)
    requires
        call_ensures(observed_mask, (y,), observed),
        call_ensures(active_mask, (weights,), active),
    ensures
        t < y.rows && i < y.cols ==> (observed.at(t as int, i as int) <==> bits::finite(
            y.at(t as int, i as int),
        )),
        t < weights.rows && i < weights.cols ==> (active.at(t as int, i as int) <==> bits::lt(
            bits::ZERO,
            weights.at(t as int, i as int),
        )),
{
}

/// A total is divided by where it is positive, and one otherwise; there is something
/// to fit unless the total falls below `1e-10`.
pub proof fn law_weight_totals(total: u64, denominator: u64, enough: bool)
    requires
        call_ensures(safe_denominator, (total,), denominator),
        call_ensures(has_weight, (total,), enough),
    ensures
        bits::lt(bits::ZERO, total) ==> denominator == total,
        !bits::lt(bits::ZERO, total) ==> denominator == bits::ONE,
        enough <==> !bits::lt(total, 0x3DDB_7CDF_D9D7_BDBB),
{
}

/// A proximal step drops the momentum exactly where it turned against it, and
/// settles exactly where the change is below the tolerance.
pub proof fn law_after_a_proximal_step(overlap: u64, change: u64, tol: u64, r: StepOutcome)
    requires
        call_ensures(after_proximal_step, (overlap, change, tol), r),
    ensures
        r.restart <==> bits::lt(bits::ZERO, overlap),
        r.settled <==> bits::lt(change, tol),
{
}

} // verus!

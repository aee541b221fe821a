//! Kernel weights: which units and periods they run over, and how a table of
//! them is stored.
use crate::bits;
use crate::matrix::{lemma_extend_listing, lists_cells, lists_units, true_cells, Matrix};
use crate::panel::{ever_treated, same_shape};
use vstd::prelude::*;

verus! {

/// Weight of a unit: one, zero, or the exponential decay over a distance.
#[derive(Debug, Clone, Copy, PartialEq, Eq, Structural)]
pub enum UnitKernel {
    One,
    Zero,
    /// `exp(-bandwidth * distance)` for this distance.
    Decay(u64),
}

/// Kernel of unit `j` in the weights centred on unit `target`.
pub open spec fn twostep_kernel(
    lambda_unit: u64,
    target: usize,
    j: int,
    distance: u64,
) -> UnitKernel {
    if j == target || bits::zero(lambda_unit) {
        UnitKernel::One
    } else if bits::finite(distance) {
        UnitKernel::Decay(distance)
    } else {
        UnitKernel::Zero
    }
}

/// Kernels of all units in the weights centred on unit `target_unit`: a zero
/// bandwidth gives uniform weights, a unit out of reach gets no weight, and
/// the target itself always weighs one.
pub fn twostep_unit_kernels(lambda_unit: u64, target_unit: usize, distances: &Vec<u64>) -> (r: Vec<
    UnitKernel,
>)
    ensures
        r@ == Seq::new(
            distances@.len(),
            |j: int| twostep_kernel(lambda_unit, target_unit, j, distances@[j]),
        ),
{
    let uniform: bool = bits::is_zero(lambda_unit);
    let mut r: Vec<UnitKernel> = Vec::new();
    let mut j: usize = 0;
    while j < distances.len()
        invariant
            j <= distances@.len(),
            uniform == bits::zero(lambda_unit),
            r@ == Seq::new(
                distances@.len(),
                |j: int| twostep_kernel(lambda_unit, target_unit, j, distances@[j]),
            ).take(j as int),
        decreases distances@.len() - j,
    {
        let k: UnitKernel = if j == target_unit || uniform {
            UnitKernel::One
        } else if bits::is_finite(distances[j]) {
            UnitKernel::Decay(distances[j])
        } else {
            UnitKernel::Zero
        };
        r.push(k);
        j = j + 1;
    }
    r
}

/// The target unit always takes part with weight one.
pub proof fn law_target_weighs_one(lambda_unit: u64, target: usize, distance: u64)
    ensures
        twostep_kernel(lambda_unit, target, target as int, distance) == UnitKernel::One,
{
}

/// Twice the distance of period `t` from the middle of the treated block,
/// `T - T_post / 2`.
pub open spec fn doubled_distance(t: int, n_periods: int, treated_periods: int) -> int {
    let offset = 2 * t - (2 * n_periods - treated_periods);
    if offset < 0 {
        -offset
    } else {
        offset
    }
}

/// Twice the distance of period `t` from the middle of the treated block.
pub fn doubled_time_distance(t: usize, n_periods: usize, treated_periods: usize) -> (r: u128)
    ensures
        r == doubled_distance(t as int, n_periods as int, treated_periods as int),
{
    let a: u128 = 2 * (t as u128) + (treated_periods as u128);
    let b: u128 = 2 * (n_periods as u128);
    if a < b {
        b - a
    } else {
        a - b
    }
}

/// Number of periods before treatment.
pub open spec fn pre_periods(n_periods: usize, treated_periods: usize) -> usize {
    if treated_periods <= n_periods {
        (n_periods - treated_periods) as usize
    } else {
        0
    }
}

/// Number of periods before treatment.
pub fn pre_period_count(n_periods: usize, treated_periods: usize) -> (r: usize)
    ensures
        r == pre_periods(n_periods, treated_periods),
{
    if treated_periods <= n_periods {
        n_periods - treated_periods
    } else {
        0
    }
}

/// `units` are the treated units observed in period `t`.
pub open spec fn lists_trajectory(
    units: Seq<usize>,
    y: &Matrix<u64>,
    d: &Matrix<u64>,
    t: usize,
) -> bool {
    lists_units(
        units,
        y.cols as int,
        |i: int| ever_treated(d, i) && bits::finite(y.at(t as int, i)),
    )
}

/// Treated units observed in period `t`, over which the treated trajectory is
/// averaged.
pub fn trajectory_units(y: &Matrix<u64>, d: &Matrix<u64>, t: usize) -> (r: Vec<usize>)
    requires
        same_shape(y, d),
        t < y.rows,
    ensures
        lists_trajectory(r@, y, d, t),
{
    let mut r: Vec<usize> = Vec::new();
    let mut i: usize = 0;
    while i < y.cols
        invariant
            same_shape(y, d),
            t < y.rows,
            i <= y.cols,
            lists_units(
                r@,
                i as int,
                |i: int| ever_treated(d, i) && bits::finite(y.at(t as int, i)),
            ),
        decreases y.cols - i,
    {
        proof {
            lemma_extend_listing(
                r@,
                i,
                |i: int| ever_treated(d, i) && bits::finite(y.at(t as int, i)),
            );
        }
        if crate::panel::is_ever_treated(d, i) && bits::is_finite(y.get(t, i)) {
            r.push(i);
        }
        i = i + 1;
    }
    r
}

/// `periods` are those before treatment in which both unit `i` and the treated
/// trajectory are observed.
pub open spec fn lists_overlap(
    periods: Seq<usize>,
    y: &Matrix<u64>,
    average: Seq<u64>,
    n_pre: usize,
    i: usize,
) -> bool {
    lists_units(
        periods,
        n_pre as int,
        |t: int| bits::finite(y.at(t, i as int)) && bits::finite(average[t]),
    )
}

/// Periods before treatment in which both unit `i` and the treated trajectory
/// are observed.
pub fn overlap_periods(y: &Matrix<u64>, average: &Vec<u64>, n_pre: usize, i: usize) -> (r: Vec<
    usize,
>)
    requires
        y.wf(),
        n_pre <= y.rows,
        n_pre <= average@.len(),
        i < y.cols,
    ensures
        lists_overlap(r@, y, average@, n_pre, i),
{
    let mut r: Vec<usize> = Vec::new();
    let mut t: usize = 0;
    while t < n_pre
        invariant
            y.wf(),
            n_pre <= y.rows,
            n_pre <= average@.len(),
            i < y.cols,
            t <= n_pre,
            lists_units(
                r@,
                t as int,
                |t: int| bits::finite(y.at(t, i as int)) && bits::finite(average@[t]),
            ),
        decreases n_pre - t,
    {
        proof {
            lemma_extend_listing(
                r@,
                t,
                |t: int| bits::finite(y.at(t, i as int)) && bits::finite(average@[t]),
            );
        }
        if bits::is_finite(y.get(t, i)) && bits::is_finite(average[t]) {
            r.push(t);
        }
        t = t + 1;
    }
    r
}

/// Kernel of a unit in the joint weights, `distance` being its deviation from
/// the treated trajectory: without periods before treatment all units weigh
/// one, and a unit that cannot be compared weighs nothing.
pub open spec fn joint_kernel(n_pre: usize, distance: u64) -> UnitKernel {
    if n_pre == 0 {
        UnitKernel::One
    } else if bits::infinite(distance) {
        UnitKernel::Zero
    } else {
        UnitKernel::Decay(distance)
    }
}

/// Kernel of a unit in the joint weights.
pub fn joint_unit_kernel(n_pre: usize, distance: u64) -> (r: UnitKernel)
    ensures
        r == joint_kernel(n_pre, distance),
{
    if n_pre == 0 {
        UnitKernel::One
    } else if bits::is_infinite(distance) {
        UnitKernel::Zero
    } else {
        UnitKernel::Decay(distance)
    }
}

/// Largest of some numbers, zero where none is positive; NaN is passed over.
pub open spec fn largest_or_zero(values: Seq<u64>) -> u64
    decreases values.len(),
{
    if values.len() == 0 {
        bits::ZERO
    } else {
        let rest = largest_or_zero(values.drop_last());
        if bits::lt(rest, values.last()) {
            values.last()
        } else {
            rest
        }
    }
}

/// Largest of some numbers, zero where none is positive.
pub fn max_or_zero(values: &Vec<u64>) -> (r: u64)
    ensures
        r == largest_or_zero(values@),
{
    let mut r: u64 = bits::ZERO;
    let mut k: usize = 0;
    while k < values.len()
        invariant
            k <= values@.len(),
            r == largest_or_zero(values@.take(k as int)),
        decreases values@.len() - k,
    {
        proof {
            assert(values@.take(k + 1).drop_last() =~= values@.take(k as int));
        }
        if bits::less_than(r, values[k]) {
            r = values[k];
        }
        k = k + 1;
    }
    proof {
        assert(values@.take(k as int) =~= values@);
    }
    r
}

/// The largest number is not negative, not NaN, and not below any of them.
pub proof fn law_largest_or_zero(values: Seq<u64>, k: int)
    ensures
        bits::le(bits::ZERO, largest_or_zero(values)),
        0 <= k < values.len() ==> !bits::lt(largest_or_zero(values), values[k]),
        largest_or_zero(values) == bits::ZERO || values.contains(largest_or_zero(values)),
    decreases values.len(),
{
    if values.len() > 0 {
        let init = values.drop_last();
        law_largest_or_zero(init, k);
        assert(values[values.len() - 1] == values.last());
        if 0 <= k < init.len() {
            assert(init[k] == values[k]);
        }
        if init.contains(largest_or_zero(init)) {
            let j = choose|j: int| 0 <= j < init.len() && init[j] == largest_or_zero(init);
            assert(values[j] == init[j]);
        }
    }
}

/// Panels with fewer units than this keep their weights in full tables.
pub const SPARSE_MIN_UNITS: usize = 100;

/// `0.80`: above this share of retained entries a full table is kept.
pub const SPARSE_THRESHOLD_RATIO: u64 = 0x3FE9_9999_9999_999A;

/// Weights of the cells at or above a threshold.
#[derive(Debug)]
pub struct SparseWeights {
    /// Retained cells, by period and within a period by unit.
    pub indices: Vec<(usize, usize)>,
    /// Weights of the retained cells.
    pub values: Vec<u64>,
    pub n_rows: usize,
    pub n_cols: usize,
    pub threshold: u64,
}

/// Weights of the cells of a panel.
#[derive(Debug)]
pub enum WeightMatrix {
    Dense(Matrix<u64>),
    Sparse(SparseWeights),
}

impl SparseWeights {
    /// This retains the cells of `w` at or above `threshold`, with their
    /// weights.
    pub open spec fn retains(&self, w: &Matrix<u64>, threshold: u64) -> bool {
        &&& self.n_rows == w.rows
        &&& self.n_cols == w.cols
        &&& self.threshold == threshold
        &&& lists_cells(
            self.indices@,
            w.rows as int,
            w.cols as int,
            |t: int, i: int| bits::le(threshold, w.at(t, i)),
        )
        &&& self.values@.len() == self.indices@.len()
        &&& forall|k: int|
            0 <= k < self.indices@.len() ==> #[trigger] self.values@[k] == w.at(
                self.indices@[k].0 as int,
                self.indices@[k].1 as int,
            )
    }
}

/// Cells at or above the threshold, by period and within a period by unit.
pub fn retained_cells(w: &Matrix<u64>, threshold: u64) -> (r: Vec<(usize, usize)>)
    requires
        w.wf(),
    ensures
        lists_cells(
            r@,
            w.rows as int,
            w.cols as int,
            |t: int, i: int| bits::le(threshold, w.at(t, i)),
        ),
{
    assert(w.data.len() == w.rows * w.cols);
    let f = |t: usize, i: usize| -> (b: bool)
        requires
            w.has(t, i),
        ensures
            b == bits::le(threshold, w.at(t as int, i as int)),
    { bits::less_or_equal(threshold, w.get(t, i)) };
    let mask: Matrix<bool> = Matrix::build(w.rows, w.cols, f);
    let r: Vec<(usize, usize)> = true_cells(&mask);
    proof {
        crate::matrix::lemma_same_listing(
            r@,
            w.rows as int,
            w.cols as int,
            |t: int, i: int| mask.at(t, i),
            |t: int, i: int| bits::le(threshold, w.at(t, i)),
        );
    }
    r
}

/// Keeps only the weights at or above the threshold.
pub fn sparsify(w: &Matrix<u64>, threshold: u64) -> (r: SparseWeights)
    requires
        w.wf(),
    ensures
        r.retains(w, threshold),
{
    let indices: Vec<(usize, usize)> = retained_cells(w, threshold);
    let mut values: Vec<u64> = Vec::new();
    let mut k: usize = 0;
    while k < indices.len()
        invariant
            w.wf(),
            k <= indices@.len(),
            values@.len() == k,
            forall|j: int|
                0 <= j < indices@.len() ==> (#[trigger] indices@[j]).0 < w.rows && indices@[j].1
                    < w.cols,
            forall|j: int|
                0 <= j < k ==> #[trigger] values@[j] == w.at(
                    indices@[j].0 as int,
                    indices@[j].1 as int,
                ),
        decreases indices@.len() - k,
    {
        let (t, i) = indices[k];
        values.push(w.get(t, i));
        k = k + 1;
    }
    SparseWeights { indices, values, n_rows: w.rows, n_cols: w.cols, threshold }
}

/// `r` is how weights are stored.  `ratio` is the share of cells at or above
/// the threshold; a small panel, or one in which most weights are retained,
/// keeps the full table.
pub open spec fn stores(r: WeightMatrix, w: Matrix<u64>, threshold: u64, ratio: u64) -> bool {
    if w.cols < SPARSE_MIN_UNITS || bits::lt(SPARSE_THRESHOLD_RATIO, ratio) {
        r == WeightMatrix::Dense(w)
    } else {
        r is Sparse && r->Sparse_0.retains(&w, threshold)
    }
}

/// Decides how weights are stored.
pub fn store_weights(w: Matrix<u64>, threshold: u64, ratio: u64) -> (r: WeightMatrix)
    requires
        w.wf(),
    ensures
        stores(r, w, threshold, ratio),
{
    if w.cols < SPARSE_MIN_UNITS || bits::less_than(SPARSE_THRESHOLD_RATIO, ratio) {
        WeightMatrix::Dense(w)
    } else {
        WeightMatrix::Sparse(sparsify(&w, threshold))
    }
}

/// Full table of sparse weights; cells that were not retained are zero.
pub fn expand(s: &SparseWeights) -> (r: Matrix<u64>)
    requires
        s.values@.len() == s.indices@.len(),
        s.n_rows * s.n_cols <= usize::MAX,
        forall|k: int|
            0 <= k < s.indices@.len() ==> (#[trigger] s.indices@[k]).0 < s.n_rows
                && s.indices@[k].1 < s.n_cols,
        forall|j: int, k: int|
            0 <= j < k < s.indices@.len() ==> #[trigger] s.indices@[j] != #[trigger] s.indices@[k],
    ensures
        r.wf(),
        r.rows == s.n_rows,
        r.cols == s.n_cols,
        forall|k: int|
            0 <= k < s.indices@.len() ==> r.at(
                (#[trigger] s.indices@[k]).0 as int,
                s.indices@[k].1 as int,
            ) == s.values@[k],
        forall|t: usize, i: usize|
            t < s.n_rows && i < s.n_cols && !s.indices@.contains((t, i)) ==> #[trigger] r.at(
                t as int,
                i as int,
            ) == bits::ZERO,
{
    let f = |t: usize, i: usize| -> (v: u64)
        ensures
            v == bits::ZERO,
    { bits::ZERO };
    let mut r: Matrix<u64> = Matrix::build(s.n_rows, s.n_cols, f);
    let mut k: usize = 0;
    while k < s.indices.len()
        invariant
            k <= s.indices@.len(),
            s.values@.len() == s.indices@.len(),
            r.wf(),
            r.rows == s.n_rows,
            r.cols == s.n_cols,
            forall|k: int|
                0 <= k < s.indices@.len() ==> (#[trigger] s.indices@[k]).0 < s.n_rows
                    && s.indices@[k].1 < s.n_cols,
            forall|j: int, k: int|
                0 <= j < k < s.indices@.len() ==> #[trigger] s.indices@[j]
                    != #[trigger] s.indices@[k],
            forall|j: int|
                0 <= j < k ==> r.at(
                    (#[trigger] s.indices@[j]).0 as int,
                    s.indices@[j].1 as int,
                ) == s.values@[j],
            forall|t: usize, i: usize|
                t < s.n_rows && i < s.n_cols && !s.indices@.contains((t, i)) ==> #[trigger] r.at(
                    t as int,
                    i as int,
                ) == bits::ZERO,
        decreases s.indices@.len() - k,
    {
        let (t, i) = s.indices[k];
        let ghost before = r;
        assert(s.indices@[k as int] == (t, i));
        r.set(t, i, s.values[k]);
        proof {
            assert forall|j: int| 0 <= j < k + 1 implies r.at(
                (#[trigger] s.indices@[j]).0 as int,
                s.indices@[j].1 as int,
            ) == s.values@[j] by {
                if j < k {
                    assert(s.indices@[j] != s.indices@[k as int]);
                    assert(r.at(s.indices@[j].0 as int, s.indices@[j].1 as int) == before.at(
                        s.indices@[j].0 as int,
                        s.indices@[j].1 as int,
                    ));
                }
            }
            assert forall|a: usize, b: usize|
                a < s.n_rows && b < s.n_cols && !s.indices@.contains(
                    (a, b),
                ) implies #[trigger] r.at(a as int, b as int) == bits::ZERO by {
                assert(s.indices@.contains((t, i)));
                assert(before.at(a as int, b as int) == bits::ZERO);
            }
        }
        k = k + 1;
    }
    r
}

/// Storing weights sparsely and expanding them gives back every weight at or
/// above the threshold, and zero for the others.
pub proof fn law_sparse_round_trip(
    w: &Matrix<u64>,
    threshold: u64,
    s: &SparseWeights,
    r: &Matrix<u64>,
    t: usize,
    i: usize,
)
    requires
        s.retains(w, threshold),
        forall|k: int|
            0 <= k < s.indices@.len() ==> r.at(
                (#[trigger] s.indices@[k]).0 as int,
                s.indices@[k].1 as int,
            ) == s.values@[k],
        forall|t: usize, i: usize|
            t < s.n_rows && i < s.n_cols && !s.indices@.contains((t, i)) ==> #[trigger] r.at(
                t as int,
                i as int,
            ) == bits::ZERO,
        t < w.rows,
        i < w.cols,
    ensures
        r.at(t as int, i as int) == if bits::le(threshold, w.at(t as int, i as int)) {
            w.at(t as int, i as int)
        } else {
            bits::ZERO
        },
{
    if s.indices@.contains((t, i)) {
        let k = choose|k: int| 0 <= k < s.indices@.len() && s.indices@[k] == (t, i);
        assert(s.indices@[k] == (t, i));
        assert(s.values@[k] == w.at(t as int, i as int));
    }
}

/// Twice the distance of a period from the middle of the treated block: it
/// vanishes at the middle, `T - T_post / 2`, falls by two from one period to the
/// next up to there and grows by two from there on, whatever the numbers of
/// periods; so the nearest periods on the two sides are equally far.
pub proof fn law_time_distance_from_middle(
    t: usize,
    n_periods: usize,
    treated_periods: usize,
    here: u128,
    next: u128,
)
    requires
        t < usize::MAX,
        call_ensures(doubled_time_distance, (t, n_periods, treated_periods), here),
        call_ensures(doubled_time_distance, ((t + 1) as usize, n_periods, treated_periods), next),
    ensures
        here == 0 <==> 2 * t + treated_periods == 2 * n_periods,
        2 * t + treated_periods + 1 == 2 * n_periods ==> here == 1 && next == 1,
        2 * (t + 1) + treated_periods <= 2 * n_periods ==> here == next + 2,
        2 * t + treated_periods >= 2 * n_periods ==> next == here + 2,
{
}

/// Two periods that lie equally far before and after the middle of the treated
/// block have the same distance, and a period further out has a larger one.
pub proof fn law_time_distance_symmetric(
    s: usize,
    t: usize,
    n_periods: usize,
    treated_periods: usize,
    a: u128,
    b: u128,
)
    requires
        call_ensures(doubled_time_distance, (s, n_periods, treated_periods), a),
        call_ensures(doubled_time_distance, (t, n_periods, treated_periods), b),
    ensures
        s + t + treated_periods == 2 * n_periods ==> a == b,
        s < t && s + t + treated_periods < 2 * n_periods ==> a > b,
        s < t && s + t + treated_periods > 2 * n_periods ==> a < b,
{
}

/// The periods before treatment and the treated ones make up the panel; where
/// more are treated than there are, none is before.
pub proof fn law_periods_before_treatment(n_periods: usize, treated_periods: usize, r: usize)
    requires
        call_ensures(pre_period_count, (n_periods, treated_periods), r),
    ensures
        treated_periods <= n_periods ==> r + treated_periods == n_periods,
        treated_periods > n_periods ==> r == 0,
{
}

/// The trajectory of a period runs over every unit that is treated at some time
/// and observed in the period, each once, and over no other.
pub proof fn law_trajectory_runs_over_treated_units(
    y: &Matrix<u64>,
    d: &Matrix<u64>,
    t: usize,
    r: Vec<usize>,
)
    requires
        call_ensures(trajectory_units, (y, d, t), r),
    ensures
        forall|i: usize|
            #![trigger r@.contains(i)]
            r@.contains(i) <==> i < y.cols && bits::finite(y.at(t as int, i as int)) && (exists|
                s: int,
            |
                0 <= s < d.rows && bits::same(#[trigger] d.at(s, i as int), bits::ONE)),
        forall|j: int, k: int| 0 <= j < k < r@.len() ==> #[trigger] r@[j] < #[trigger] r@[k],
{
    assert forall|i: usize|
        #![trigger r@.contains(i)]
        r@.contains(i) <==> i < y.cols && bits::finite(y.at(t as int, i as int)) && (exists|s: int|
            0 <= s < d.rows && bits::same(#[trigger] d.at(s, i as int), bits::ONE)) by {
        if exists|s: int| 0 <= s < d.rows && bits::same(#[trigger] d.at(s, i as int), bits::ONE) {
            let s = choose|s: int|
                0 <= s < d.rows && bits::same(#[trigger] d.at(s, i as int), bits::ONE);
            assert(crate::panel::treated(d, s, i as int));
            assert(ever_treated(d, i as int));
        }
        if ever_treated(d, i as int) {
            let s = choose|s: int|
                0 <= s < d.rows && #[trigger] crate::panel::treated(d, s, i as int);
            assert(bits::same(d.at(s, i as int), bits::ONE));
        }
        if r@.contains(i) {
            let k = choose|k: int| 0 <= k < r@.len() && r@[k] == i;
            assert(r@[k] < y.cols);
        }
    }
}

/// A unit is compared with the trajectory in every period before treatment in
/// which both are finite, each once, and in no other.
pub proof fn law_overlap_takes_every_period(
    y: &Matrix<u64>,
    average: &Vec<u64>,
    n_pre: usize,
    i: usize,
    r: Vec<usize>,
)
    requires
        call_ensures(overlap_periods, (y, average, n_pre, i), r),
    ensures
        forall|t: usize|
            #![trigger r@.contains(t)]
            r@.contains(t) <==> t < n_pre && bits::finite(y.at(t as int, i as int))
                && bits::finite(average@[t as int]),
        forall|j: int, k: int| 0 <= j < k < r@.len() ==> #[trigger] r@[j] < #[trigger] r@[k],
{
    assert forall|t: usize|
        #![trigger r@.contains(t)]
        r@.contains(t) <==> t < n_pre && bits::finite(y.at(t as int, i as int)) && bits::finite(
            average@[t as int],
        ) by {
        if r@.contains(t) {
            let k = choose|k: int| 0 <= k < r@.len() && r@[k] == t;
            assert(r@[k] < n_pre);
        }
    }
}

/// Under a bandwidth that is not zero, every unit but the target decays with its
/// own distance where that is finite and weighs nothing otherwise; the target
/// weighs one, and under a zero bandwidth so do all.
pub proof fn law_unit_kernels(
    lambda_unit: u64,
    target: usize,
    distances: &Vec<u64>,
    r: Vec<UnitKernel>,
)
    requires
        call_ensures(twostep_unit_kernels, (lambda_unit, target, distances), r),
    ensures
        r@.len() == distances@.len(),
        target < r@.len() ==> r@[target as int] == UnitKernel::One,
        forall|j: int|
            0 <= j < r@.len() && bits::zero(lambda_unit) ==> #[trigger] r@[j] == UnitKernel::One,
        forall|j: int|
            0 <= j < r@.len() && j != target && !bits::zero(lambda_unit) ==> {
                &&& bits::finite(distances@[j]) ==> #[trigger] r@[j] == UnitKernel::Decay(
                    distances@[j],
                )
                &&& !bits::finite(distances@[j]) ==> r@[j] == UnitKernel::Zero
            },
{
}

/// In the joint weights a unit decays with its deviation unless it cannot be
/// compared, and weighs one exactly where nothing precedes treatment.
pub proof fn law_joint_unit_kernel(n_pre: usize, distance: u64, r: UnitKernel)
    requires
        call_ensures(joint_unit_kernel, (n_pre, distance), r),
    ensures
        r == UnitKernel::One <==> n_pre == 0,
        r == UnitKernel::Zero <==> n_pre > 0 && bits::infinite(distance),
        n_pre > 0 && !bits::infinite(distance) ==> r == UnitKernel::Decay(distance),
{
}

/// The largest of some numbers is not below any of them, and is one of them
/// unless none is positive; no number is positive where it is zero.
pub proof fn law_maximum(values: &Vec<u64>, r: u64)
    requires
        call_ensures(max_or_zero, (values,), r),
    ensures
        forall|k: int| 0 <= k < values@.len() ==> !bits::lt(r, #[trigger] values@[k]),
        r == bits::ZERO || bits::lt(bits::ZERO, r) && values@.contains(r),
{
    law_largest_or_zero(values@, 0);
    lemma_largest_positive(values@);
    assert forall|k: int| 0 <= k < values@.len() implies !bits::lt(r, #[trigger] values@[k]) by {
        law_largest_or_zero(values@, k);
    }
}

proof fn lemma_largest_positive(values: Seq<u64>)
    ensures
        largest_or_zero(values) == bits::ZERO || bits::lt(bits::ZERO, largest_or_zero(values)),
    decreases values.len(),
{
    if values.len() > 0 {
        lemma_largest_positive(values.drop_last());
    }
}

/// A cell is retained exactly where its weight is at or above the threshold.
pub proof fn law_retained_cells(w: &Matrix<u64>, threshold: u64, r: Vec<(usize, usize)>)
    requires
        call_ensures(retained_cells, (w, threshold), r),
    ensures
        forall|t: usize, i: usize|
            #![trigger r@.contains((t, i))]
            r@.contains((t, i)) <==> t < w.rows && i < w.cols && bits::le(
                threshold,
                w.at(t as int, i as int),
            ),
        r@.no_duplicates(),
{
    assert forall|t: usize, i: usize|
        #![trigger r@.contains((t, i))]
        r@.contains((t, i)) <==> t < w.rows && i < w.cols && bits::le(
            threshold,
            w.at(t as int, i as int),
        ) by {
        if r@.contains((t, i)) {
            let k = choose|k: int| 0 <= k < r@.len() && r@[k] == (t, i);
            assert(r@[k].0 < w.rows);
        }
    }
}

/// A full table is kept for fewer than a hundred units and where more than four
/// fifths of the weights are retained, and then it is the table itself;
/// otherwise every weight at or above the threshold is stored with its cell.
pub proof fn law_weights_are_stored(
    w: Matrix<u64>,
    threshold: u64,
    ratio: u64,
    r: WeightMatrix,
    t: usize,
    i: usize,
)
    requires
        call_ensures(store_weights, (w, threshold, ratio), r),
        t < w.rows,
        i < w.cols,
    ensures
        r is Dense <==> w.cols < 100 || bits::lt(0x3FE9_9999_9999_999A, ratio),
        r is Dense ==> r->Dense_0 == w,
        r is Sparse && bits::le(threshold, w.at(t as int, i as int)) ==> exists|k: int|
            0 <= k < r->Sparse_0.indices@.len() && #[trigger] r->Sparse_0.indices@[k] == (t, i)
                && r->Sparse_0.values@[k] == w.at(t as int, i as int),
        r is Sparse && !bits::le(threshold, w.at(t as int, i as int))
            ==> !r->Sparse_0.indices@.contains((t, i)),
{
    if let WeightMatrix::Sparse(s) = r {
        if bits::le(threshold, w.at(t as int, i as int)) {
            assert(s.indices@.contains((t, i)));
            let k = choose|k: int| 0 <= k < s.indices@.len() && s.indices@[k] == (t, i);
            assert(s.values@[k] == w.at(t as int, i as int));
        }
    }
}

/// Keeping the weights at or above a threshold and expanding them again gives back
/// each of these, wherever it stands, and zero for the others.
pub proof fn law_sparse_weights_expand(
    w: &Matrix<u64>,
    threshold: u64,
    s: SparseWeights,
    r: Matrix<u64>,
    t: usize,
    i: usize,
)
    requires
        call_ensures(sparsify, (w, threshold), s),
        call_ensures(expand, (&s,), r),
        t < w.rows,
        i < w.cols,
    ensures
        r.rows == w.rows && r.cols == w.cols,
        bits::le(threshold, w.at(t as int, i as int)) ==> r.at(t as int, i as int) == w.at(
            t as int,
            i as int,
        ),
        !bits::le(threshold, w.at(t as int, i as int)) ==> r.at(t as int, i as int)
            == bits::ZERO,
{
    law_sparse_round_trip(w, threshold, &s, &r, t, i);
}

} // verus!

//! Distances and kernel weights, given the arithmetic.
//!
//! The caller supplies the root mean square of the differences of some pairs of
//! numbers, the average of some numbers, exponential decays and products; what
//! they are applied to is decided here.
use crate::bits;
use crate::distance::{mirror, mirrored, Separation, UnitDistanceCache};
use crate::estimation::masked_at_treated;
use crate::matrix::{lists_cells, Matrix};
use crate::panel::{ever_treated, same_shape, treated};
use crate::weights::{
    doubled_distance, doubled_time_distance, joint_kernel, joint_unit_kernel, largest_or_zero,
    lists_overlap, lists_trajectory, max_or_zero, overlap_periods, pre_period_count, pre_periods,
    retained_cells, store_weights, stores, trajectory_units, twostep_kernel, twostep_unit_kernels,
    UnitKernel, WeightMatrix,
};
use vstd::prelude::*;

verus! {

/// Values of two units in some periods, pair by pair.
pub open spec fn paired(
    y: &Matrix<u64>,
    i: usize,
    j: usize,
    periods: Seq<usize>,
) -> Seq<(u64, u64)> {
    Seq::new(
        periods.len(),
        |k: int| (y.at(periods[k] as int, i as int), y.at(periods[k] as int, j as int)),
    )
}

/// `v` is the distance of two units with the given separation: zero, infinite,
/// or the root mean square of the differences in the periods compared.
pub open spec fn gives_distance<R: Fn(&Vec<(u64, u64)>) -> u64>(
    v: u64,
    y: &Matrix<u64>,
    i: usize,
    j: usize,
    s: Separation,
    rms: R,
) -> bool {
    match s {
        Separation::Zero => v == bits::ZERO,
        Separation::Unreachable => v == bits::INFINITY,
        Separation::Periods(periods) => exists|pairs: Vec<(u64, u64)>|
            pairs@ == paired(y, i, j, periods@) && #[trigger] call_ensures(rms, (&pairs,), v),
    }
}

/// Distance of two units with the given separation.
pub fn separation_value<R: Fn(&Vec<(u64, u64)>) -> u64>(
    y: &Matrix<u64>,
    i: usize,
    j: usize,
    s: &Separation,
    rms: &R,
) -> (r: u64)
    requires
        y.wf(),
        i < y.cols,
        j < y.cols,
        s matches Separation::Periods(periods) ==> forall|k: int|
            0 <= k < periods@.len() ==> #[trigger] periods@[k] < y.rows,
        forall|pairs: &Vec<(u64, u64)>| #[trigger] call_requires(*rms, (pairs,)),
    ensures
        gives_distance(r, y, i, j, *s, *rms),
{
    match s {
        Separation::Zero => bits::ZERO,
        Separation::Unreachable => bits::INFINITY,
        Separation::Periods(periods) => {
            let mut pairs: Vec<(u64, u64)> = Vec::new();
            let mut k: usize = 0;
            while k < periods.len()
                invariant
                    y.wf(),
                    i < y.cols,
                    j < y.cols,
                    forall|k: int| 0 <= k < periods@.len() ==> #[trigger] periods@[k] < y.rows,
                    k <= periods@.len(),
                    pairs@ == paired(y, i, j, periods@).take(k as int),
                decreases periods@.len() - k,
            {
                pairs.push((y.get(periods[k], i), y.get(periods[k], j)));
                k = k + 1;
            }
            assert(pairs@ =~= paired(y, i, j, periods@));
            let v: u64 = (*rms)(&pairs);
            assert(call_ensures(*rms, (&pairs,), v));
            v
        },
    }
}

/// `v` is the distance of units `i` and `j` of a panel, leaving out a period.
pub open spec fn distance_of<R: Fn(&Vec<(u64, u64)>) -> u64>(
    v: u64,
    cache: &UnitDistanceCache,
    i: usize,
    j: usize,
    exclude: Option<usize>,
    rms: R,
) -> bool {
    exists|s: Separation| #[trigger]
        cache.separated(s, i, j, exclude) && gives_distance(v, &cache.y, i, j, s, rms)
}

/// Distance of units `i` and `j` of a panel, leaving out a period.
pub fn compute_pair_distance<R: Fn(&Vec<(u64, u64)>) -> u64>(
    cache: &UnitDistanceCache,
    i: usize,
    j: usize,
    exclude: Option<usize>,
    rms: &R,
) -> (r: u64)
    requires
        cache.wf(),
        i < cache.y.cols,
        j < cache.y.cols,
        forall|pairs: &Vec<(u64, u64)>| #[trigger] call_requires(*rms, (pairs,)),
    ensures
        distance_of(r, cache, i, j, exclude, *rms),
{
    let s: Separation = cache.compute_distance(i, j, exclude);
    separation_value(&cache.y, i, j, &s, rms)
}

/// `row` are the distances of unit `j` to the units after it.
pub open spec fn is_distance_row<R: Fn(&Vec<(u64, u64)>) -> u64>(
    row: Seq<u64>,
    cache: &UnitDistanceCache,
    j: usize,
    rms: R,
) -> bool {
    &&& row.len() == cache.y.cols - j - 1
    &&& forall|k: int|
        0 <= k < row.len() ==> distance_of(
            #[trigger] row[k],
            cache,
            j,
            (j + 1 + k) as usize,
            None,
            rms,
        )
}

/// Distances of unit `j` to the units after it.
pub fn distance_row<R: Fn(&Vec<(u64, u64)>) -> u64>(
    cache: &UnitDistanceCache,
    j: usize,
    rms: &R,
) -> (r: Vec<u64>)
    requires
        cache.wf(),
        j < cache.y.cols,
        forall|pairs: &Vec<(u64, u64)>| #[trigger] call_requires(*rms, (pairs,)),
    ensures
        is_distance_row(r@, cache, j, *rms),
{
    let mut r: Vec<u64> = Vec::new();
    let mut i: usize = j + 1;
    while i < cache.y.cols
        invariant
            cache.wf(),
            j < i <= cache.y.cols,
            forall|pairs: &Vec<(u64, u64)>| #[trigger] call_requires(*rms, (pairs,)),
            r@.len() == i - j - 1,
            forall|k: int|
                0 <= k < r@.len() ==> distance_of(
                    #[trigger] r@[k],
                    cache,
                    j,
                    (j + 1 + k) as usize,
                    None,
                    *rms,
                ),
        decreases cache.y.cols - i,
    {
        r.push(compute_pair_distance(cache, j, i, None, rms));
        i = i + 1;
    }
    r
}

/// `r` is the distance table whose part above the diagonal is `upper`.
pub open spec fn tabulates<R: Fn(&Vec<(u64, u64)>) -> u64>(
    r: &Matrix<u64>,
    cache: &UnitDistanceCache,
    upper: Seq<Vec<u64>>,
    rms: R,
) -> bool {
    let n = cache.y.cols;
    &&& upper.len() == n
    &&& forall|j: usize|
        j < n ==> is_distance_row((#[trigger] upper[j as int])@, cache, j, rms)
    &&& forall|a: usize, b: usize|
        a < n && b < n ==> r.at(a as int, b as int) == #[trigger] mirrored(
            upper,
            a as int,
            b as int,
        )
}

/// Distances between all pairs of units of a panel: zero from a unit to
/// itself, and the same either way.
pub fn compute_unit_distance_matrix_internal<R: Fn(&Vec<(u64, u64)>) -> u64>(
    y: &Matrix<u64>,
    d: &Matrix<u64>,
    rms: &R,
) -> (r: Matrix<u64>)
    requires
        same_shape(y, d),
        y.cols * y.cols <= usize::MAX,
        forall|pairs: &Vec<(u64, u64)>| #[trigger] call_requires(*rms, (pairs,)),
    ensures
        r.wf(),
        r.rows == y.cols,
        r.cols == y.cols,
        exists|cache: UnitDistanceCache, upper: Seq<Vec<u64>>|
            cache.caches(y, d) && #[trigger] tabulates(&r, &cache, upper, *rms),
{
    let cache: UnitDistanceCache = UnitDistanceCache::build(y, d);
    let mut upper: Vec<Vec<u64>> = Vec::new();
    let mut j: usize = 0;
    while j < y.cols
        invariant
            cache.wf(),
            cache.y.cols == y.cols,
            j <= y.cols,
            forall|pairs: &Vec<(u64, u64)>| #[trigger] call_requires(*rms, (pairs,)),
            upper@.len() == j,
            forall|a: usize|
                a < j ==> is_distance_row((#[trigger] upper@[a as int])@, &cache, a, *rms),
        decreases y.cols - j,
    {
        upper.push(distance_row(&cache, j, rms));
        j = j + 1;
    }
    assert forall|a: int| 0 <= a < y.cols implies (#[trigger] upper@[a])@.len() == y.cols - a
        - 1 by {
        assert(is_distance_row(upper@[a as usize as int]@, &cache, a as usize, *rms));
    }
    let r: Matrix<u64> = mirror(y.cols, &upper);
    proof {
        assert(cache.caches(y, d));
        assert forall|a: usize, b: usize| a < y.cols && b < y.cols implies r.at(
            a as int,
            b as int,
        ) == #[trigger] mirrored(upper@, a as int, b as int) by {
            assert(r.at(a as int, b as int) == mirrored(upper@, a as int, b as int));
        }
        assert(tabulates(&r, &cache, upper@, *rms));
    }
    r
}

/// `v` is the value of a unit kernel, with `decay` for the exponential decay
/// under a bandwidth over a distance.
pub open spec fn gives_kernel<U: Fn(u64, u64) -> u64>(
    v: u64,
    kernel: UnitKernel,
    bandwidth: u64,
    decay: U,
) -> bool {
    match kernel {
        UnitKernel::One => v == bits::ONE,
        UnitKernel::Zero => v == bits::ZERO,
        UnitKernel::Decay(distance) => call_ensures(decay, (bandwidth, distance), v),
    }
}

/// Value of a unit kernel.
pub fn kernel_value<U: Fn(u64, u64) -> u64>(
    kernel: UnitKernel,
    bandwidth: u64,
    decay: &U,
) -> (r: u64)
    requires
        forall|distance: u64| #[trigger] call_requires(*decay, (bandwidth, distance)),
    ensures
        gives_kernel(r, kernel, bandwidth, *decay),
{
    match kernel {
        UnitKernel::One => bits::ONE,
        UnitKernel::Zero => bits::ZERO,
        UnitKernel::Decay(distance) => (*decay)(bandwidth, distance),
    }
}

/// `v` is the weight of unit `j` centred on a cell: one for the unit of the
/// cell and under a zero bandwidth, the kernel of its distance otherwise.
pub open spec fn weighs_unit<R: Fn(&Vec<(u64, u64)>) -> u64, U: Fn(u64, u64) -> u64>(
    v: u64,
    cache: &UnitDistanceCache,
    j: usize,
    target_unit: usize,
    target_period: usize,
    lambda_unit: u64,
    rms: R,
    decay: U,
) -> bool {
    if j == target_unit || bits::zero(lambda_unit) {
        v == bits::ONE
    } else {
        exists|distance: u64| #[trigger]
            distance_of(distance, cache, j, target_unit, Some(target_period), rms)
                && gives_kernel(
                v,
                twostep_kernel(lambda_unit, target_unit, j as int, distance),
                lambda_unit,
                decay,
            )
    }
}

/// Period and unit weights centred on a cell.
pub open spec fn weighs_cell<
    R: Fn(&Vec<(u64, u64)>) -> u64,
    T: Fn(u64, i64) -> u64,
    U: Fn(u64, u64) -> u64,
>(
    r: (Vec<u64>, Vec<u64>),
    cache: &UnitDistanceCache,
    target_unit: usize,
    target_period: usize,
    lambda_time: u64,
    lambda_unit: u64,
    time_dist: &Matrix<i64>,
    rms: R,
    time_decay: T,
    unit_decay: U,
) -> bool {
    &&& r.0@.len() == cache.y.rows
    &&& r.1@.len() == cache.y.cols
    &&& forall|s: int|
        0 <= s < cache.y.rows ==> call_ensures(
            time_decay,
            (lambda_time, time_dist.at(target_period as int, s)),
            #[trigger] r.0@[s],
        )
    &&& forall|j: usize|
        j < cache.y.cols ==> weighs_unit(
            #[trigger] r.1@[j as int],
            cache,
            j,
            target_unit,
            target_period,
            lambda_unit,
            rms,
            unit_decay,
        )
}

/// Period and unit weights centred on a cell of a panel.
pub fn compute_twostep_weight_vectors_cached<
    R: Fn(&Vec<(u64, u64)>) -> u64,
    T: Fn(u64, i64) -> u64,
    U: Fn(u64, u64) -> u64,
>(
    cache: &UnitDistanceCache,
    target_unit: usize,
    target_period: usize,
    lambda_time: u64,
    lambda_unit: u64,
    time_dist: &Matrix<i64>,
    rms: &R,
    time_decay: &T,
    unit_decay: &U,
) -> (r: (Vec<u64>, Vec<u64>))
    requires
        cache.wf(),
        target_unit < cache.y.cols,
        target_period < cache.y.rows,
        time_dist.wf(),
        time_dist.rows == cache.y.rows,
        time_dist.cols == cache.y.rows,
        forall|pairs: &Vec<(u64, u64)>| #[trigger] call_requires(*rms, (pairs,)),
        forall|distance: i64| #[trigger] call_requires(*time_decay, (lambda_time, distance)),
        forall|distance: u64| #[trigger] call_requires(*unit_decay, (lambda_unit, distance)),
    ensures
        weighs_cell(
            r,
            cache,
            target_unit,
            target_period,
            lambda_time,
            lambda_unit,
            time_dist,
            *rms,
            *time_decay,
            *unit_decay,
        ),
{
    let n_periods: usize = cache.y.rows;
    let n_units: usize = cache.y.cols;
    let mut time: Vec<u64> = Vec::new();
    let mut s: usize = 0;
    while s < n_periods
        invariant
            s <= n_periods,
            target_period < n_periods,
            time_dist.wf(),
            time_dist.rows == n_periods,
            time_dist.cols == n_periods,
            forall|distance: i64| #[trigger] call_requires(*time_decay, (lambda_time, distance)),
            time@.len() == s,
            forall|k: int|
                0 <= k < s ==> call_ensures(
                    *time_decay,
                    (lambda_time, time_dist.at(target_period as int, k)),
                    #[trigger] time@[k],
                ),
        decreases n_periods - s,
    {
        let w: u64 = (*time_decay)(lambda_time, time_dist.get(target_period, s));
        time.push(w);
        s = s + 1;
    }
    let uniform: bool = bits::is_zero(lambda_unit);
    let mut distances: Vec<u64> = Vec::new();
    let mut j: usize = 0;
    while j < n_units
        invariant
            cache.wf(),
            n_units == cache.y.cols,
            target_unit < n_units,
            j <= n_units,
            uniform == bits::zero(lambda_unit),
            forall|pairs: &Vec<(u64, u64)>| #[trigger] call_requires(*rms, (pairs,)),
            distances@.len() == j,
            forall|k: usize|
                k < j && k != target_unit && !uniform ==> distance_of(
                    #[trigger] distances@[k as int],
                    cache,
                    k,
                    target_unit,
                    Some(target_period),
                    *rms,
                ),
        decreases n_units - j,
    {
        let distance: u64 = if uniform || j == target_unit {
            bits::ZERO
        } else {
            compute_pair_distance(cache, j, target_unit, Some(target_period), rms)
        };
        distances.push(distance);
        j = j + 1;
    }
    let kernels: Vec<UnitKernel> = twostep_unit_kernels(lambda_unit, target_unit, &distances);
    let mut unit: Vec<u64> = Vec::new();
    let mut i: usize = 0;
    while i < n_units
        invariant
            i <= n_units,
            n_units == kernels@.len(),
            forall|distance: u64| #[trigger] call_requires(*unit_decay, (lambda_unit, distance)),
            unit@.len() == i,
            forall|k: int|
                0 <= k < i ==> gives_kernel(
                    #[trigger] unit@[k],
                    kernels@[k],
                    lambda_unit,
                    *unit_decay,
                ),
        decreases n_units - i,
    {
        unit.push(kernel_value(kernels[i], lambda_unit, unit_decay));
        i = i + 1;
    }
    proof {
        assert forall|k: usize| k < n_units implies weighs_unit(
            #[trigger] unit@[k as int],
            cache,
            k,
            target_unit,
            target_period,
            lambda_unit,
            *rms,
            *unit_decay,
        ) by {
            assert(gives_kernel(unit@[k as int], kernels@[k as int], lambda_unit, *unit_decay));
            if k != target_unit && !uniform {
                assert(distance_of(
                    distances@[k as int],
                    cache,
                    k,
                    target_unit,
                    Some(target_period),
                    *rms,
                ));
            }
        }
    }
    (time, unit)
}

/// Period and unit weights centred on a cell of a panel.
pub fn compute_twostep_weight_vectors<
    R: Fn(&Vec<(u64, u64)>) -> u64,
    T: Fn(u64, i64) -> u64,
    U: Fn(u64, u64) -> u64,
>(
    y: &Matrix<u64>,
    d: &Matrix<u64>,
    target_unit: usize,
    target_period: usize,
    lambda_time: u64,
    lambda_unit: u64,
    time_dist: &Matrix<i64>,
    rms: &R,
    time_decay: &T,
    unit_decay: &U,
) -> (r: (Vec<u64>, Vec<u64>))
    requires
        same_shape(y, d),
        target_unit < y.cols,
        target_period < y.rows,
        time_dist.wf(),
        time_dist.rows == y.rows,
        time_dist.cols == y.rows,
        forall|pairs: &Vec<(u64, u64)>| #[trigger] call_requires(*rms, (pairs,)),
        forall|distance: i64| #[trigger] call_requires(*time_decay, (lambda_time, distance)),
        forall|distance: u64| #[trigger] call_requires(*unit_decay, (lambda_unit, distance)),
    ensures
        exists|cache: UnitDistanceCache| #[trigger]
            cache.caches(y, d) && weighs_cell(
                r,
                &cache,
                target_unit,
                target_period,
                lambda_time,
                lambda_unit,
                time_dist,
                *rms,
                *time_decay,
                *unit_decay,
            ),
{
    let cache: UnitDistanceCache = UnitDistanceCache::build(y, d);
    compute_twostep_weight_vectors_cached(
        &cache,
        target_unit,
        target_period,
        lambda_time,
        lambda_unit,
        time_dist,
        rms,
        time_decay,
        unit_decay,
    )
}

/// `w` is the outer product of period and unit weights.
pub open spec fn is_product<P: Fn(u64, u64) -> u64>(
    w: &Matrix<u64>,
    time: Seq<u64>,
    unit: Seq<u64>,
    multiply: P,
) -> bool {
    &&& w.wf()
    &&& w.rows == time.len()
    &&& w.cols == unit.len()
    &&& forall|t: usize, i: usize|
        t < w.rows && i < w.cols ==> call_ensures(
            multiply,
            (time[t as int], unit[i as int]),
            #[trigger] w.at(t as int, i as int),
        )
}

/// Products of period and unit weights.
pub fn weight_product<P: Fn(u64, u64) -> u64>(
    time: &Vec<u64>,
    unit: &Vec<u64>,
    multiply: &P,
) -> (r: Matrix<u64>)
    requires
        time@.len() * unit@.len() <= usize::MAX,
        forall|a: u64, b: u64| #[trigger] call_requires(*multiply, (a, b)),
    ensures
        is_product(&r, time@, unit@, *multiply),
{
    let f = |t: usize, i: usize| -> (v: u64)
        requires
            t < time@.len() && i < unit@.len() && (forall|a: u64, b: u64| #[trigger]
                call_requires(*multiply, (a, b))),
        ensures
            call_ensures(*multiply, (time@[t as int], unit@[i as int]), v),
    { (*multiply)(time[t], unit[i]) };
    Matrix::build(time.len(), unit.len(), f)
}

/// `w` are the weights of all cells centred on a cell: the products of the
/// period and unit weights centred on it.
pub open spec fn weighs_cells<
    R: Fn(&Vec<(u64, u64)>) -> u64,
    T: Fn(u64, i64) -> u64,
    U: Fn(u64, u64) -> u64,
    P: Fn(u64, u64) -> u64,
>(
    w: &Matrix<u64>,
    cache: &UnitDistanceCache,
    target_unit: usize,
    target_period: usize,
    lambda_time: u64,
    lambda_unit: u64,
    time_dist: &Matrix<i64>,
    rms: R,
    time_decay: T,
    unit_decay: U,
    multiply: P,
) -> bool {
    exists|vectors: (Vec<u64>, Vec<u64>)| #[trigger]
        weighs_cell(
            vectors,
            cache,
            target_unit,
            target_period,
            lambda_time,
            lambda_unit,
            time_dist,
            rms,
            time_decay,
            unit_decay,
        ) && is_product(w, vectors.0@, vectors.1@, multiply)
}

/// Weights of all cells of a panel centred on a cell.
pub fn compute_weight_matrix_cached<
    R: Fn(&Vec<(u64, u64)>) -> u64,
    T: Fn(u64, i64) -> u64,
    U: Fn(u64, u64) -> u64,
    P: Fn(u64, u64) -> u64,
>(
    cache: &UnitDistanceCache,
    target_unit: usize,
    target_period: usize,
    lambda_time: u64,
    lambda_unit: u64,
    time_dist: &Matrix<i64>,
    rms: &R,
    time_decay: &T,
    unit_decay: &U,
    multiply: &P,
) -> (r: Matrix<u64>)
    requires
        cache.wf(),
        target_unit < cache.y.cols,
        target_period < cache.y.rows,
        time_dist.wf(),
        time_dist.rows == cache.y.rows,
        time_dist.cols == cache.y.rows,
        forall|pairs: &Vec<(u64, u64)>| #[trigger] call_requires(*rms, (pairs,)),
        forall|distance: i64| #[trigger] call_requires(*time_decay, (lambda_time, distance)),
        forall|distance: u64| #[trigger] call_requires(*unit_decay, (lambda_unit, distance)),
        forall|a: u64, b: u64| #[trigger] call_requires(*multiply, (a, b)),
    ensures
        weighs_cells(
            &r,
            cache,
            target_unit,
            target_period,
            lambda_time,
            lambda_unit,
            time_dist,
            *rms,
            *time_decay,
            *unit_decay,
            *multiply,
        ),
{
    let vectors: (Vec<u64>, Vec<u64>) = compute_twostep_weight_vectors_cached(
        cache,
        target_unit,
        target_period,
        lambda_time,
        lambda_unit,
        time_dist,
        rms,
        time_decay,
        unit_decay,
    );
    assert(cache.y.data.len() == cache.y.rows * cache.y.cols);
    weight_product(&vectors.0, &vectors.1, multiply)
}

/// Weights of all cells of a panel centred on a cell.  A unit that is treated in
/// the period of that cell has the weight of its distance like every other one:
/// it is the control mask that keeps treated cells out of a fit.
pub fn compute_weight_matrix<
    R: Fn(&Vec<(u64, u64)>) -> u64,
    T: Fn(u64, i64) -> u64,
    U: Fn(u64, u64) -> u64,
    P: Fn(u64, u64) -> u64,
>(
    y: &Matrix<u64>,
    d: &Matrix<u64>,
    target_unit: usize,
    target_period: usize,
    lambda_time: u64,
    lambda_unit: u64,
    time_dist: &Matrix<i64>,
    rms: &R,
    time_decay: &T,
    unit_decay: &U,
    multiply: &P,
) -> (r: Matrix<u64>)
    requires
        same_shape(y, d),
        target_unit < y.cols,
        target_period < y.rows,
        time_dist.wf(),
        time_dist.rows == y.rows,
        time_dist.cols == y.rows,
        forall|pairs: &Vec<(u64, u64)>| #[trigger] call_requires(*rms, (pairs,)),
        forall|distance: i64| #[trigger] call_requires(*time_decay, (lambda_time, distance)),
        forall|distance: u64| #[trigger] call_requires(*unit_decay, (lambda_unit, distance)),
        forall|a: u64, b: u64| #[trigger] call_requires(*multiply, (a, b)),
    ensures
        exists|cache: UnitDistanceCache| #[trigger]
            cache.caches(y, d) && weighs_cells(
                &r,
                &cache,
                target_unit,
                target_period,
                lambda_time,
                lambda_unit,
                time_dist,
                *rms,
                *time_decay,
                *unit_decay,
                *multiply,
            ),
{
    let cache: UnitDistanceCache = UnitDistanceCache::build(y, d);
    compute_weight_matrix_cached(
        &cache,
        target_unit,
        target_period,
        lambda_time,
        lambda_unit,
        time_dist,
        rms,
        time_decay,
        unit_decay,
        multiply,
    )
}

/// Every cell of `now` that lies before cell `(t, i)`, by period and within a
/// period by unit, holds its product.
spec fn filled<P: Fn(u64, u64) -> u64>(
    now: &Matrix<u64>,
    time: Seq<u64>,
    unit: Seq<u64>,
    t: int,
    i: int,
    multiply: P,
) -> bool {
    &&& now.wf()
    &&& now.rows == time.len()
    &&& now.cols == unit.len()
    &&& forall|a: usize, b: usize|
        a < now.rows && b < now.cols && (a < t || (a == t && b < i)) ==> call_ensures(
            multiply,
            (time[a as int], unit[b as int]),
            #[trigger] now.at(a as int, b as int),
        )
}

/// Overwrites a buffer with products of period and unit weights.
fn product_into<P: Fn(u64, u64) -> u64>(
    buf: &mut Matrix<u64>,
    time: &Vec<u64>,
    unit: &Vec<u64>,
    multiply: &P,
)
    requires
        old(buf).wf(),
        old(buf).rows == time@.len(),
        old(buf).cols == unit@.len(),
        forall|a: u64, b: u64| #[trigger] call_requires(*multiply, (a, b)),
    ensures
        is_product(final(buf), time@, unit@, *multiply),
{
    let mut t: usize = 0;
    while t < time.len()
        invariant
            t <= time@.len(),
            forall|a: u64, b: u64| #[trigger] call_requires(*multiply, (a, b)),
            filled(&*buf, time@, unit@, t as int, 0, *multiply),
        decreases time@.len() - t,
    {
        let mut i: usize = 0;
        while i < unit.len()
            invariant
                t < time@.len(),
                i <= unit@.len(),
                forall|a: u64, b: u64| #[trigger] call_requires(*multiply, (a, b)),
                filled(&*buf, time@, unit@, t as int, i as int, *multiply),
            decreases unit@.len() - i,
        {
            let v: u64 = (*multiply)(time[t], unit[i]);
            buf.set(t, i, v);
            i = i + 1;
        }
        t = t + 1;
    }
}

/// As [`compute_weight_matrix_cached`], into a buffer.
pub fn compute_weight_matrix_cached_into<
    R: Fn(&Vec<(u64, u64)>) -> u64,
    T: Fn(u64, i64) -> u64,
    U: Fn(u64, u64) -> u64,
    P: Fn(u64, u64) -> u64,
>(
    buf: &mut Matrix<u64>,
    cache: &UnitDistanceCache,
    target_unit: usize,
    target_period: usize,
    lambda_time: u64,
    lambda_unit: u64,
    time_dist: &Matrix<i64>,
    rms: &R,
    time_decay: &T,
    unit_decay: &U,
    multiply: &P,
)
    requires
        cache.wf(),
        old(buf).wf(),
        old(buf).rows == cache.y.rows,
        old(buf).cols == cache.y.cols,
        target_unit < cache.y.cols,
        target_period < cache.y.rows,
        time_dist.wf(),
        time_dist.rows == cache.y.rows,
        time_dist.cols == cache.y.rows,
        forall|pairs: &Vec<(u64, u64)>| #[trigger] call_requires(*rms, (pairs,)),
        forall|distance: i64| #[trigger] call_requires(*time_decay, (lambda_time, distance)),
        forall|distance: u64| #[trigger] call_requires(*unit_decay, (lambda_unit, distance)),
        forall|a: u64, b: u64| #[trigger] call_requires(*multiply, (a, b)),
    ensures
        weighs_cells(
            final(buf),
            cache,
            target_unit,
            target_period,
            lambda_time,
            lambda_unit,
            time_dist,
            *rms,
            *time_decay,
            *unit_decay,
            *multiply,
        ),
{
    let vectors: (Vec<u64>, Vec<u64>) = compute_twostep_weight_vectors_cached(
        cache,
        target_unit,
        target_period,
        lambda_time,
        lambda_unit,
        time_dist,
        rms,
        time_decay,
        unit_decay,
    );
    product_into(buf, &vectors.0, &vectors.1, multiply);
}

/// As [`compute_weight_matrix`], into a buffer: treated units have the weights of
/// their distances here too.
pub fn compute_weight_matrix_into<
    R: Fn(&Vec<(u64, u64)>) -> u64,
    T: Fn(u64, i64) -> u64,
    U: Fn(u64, u64) -> u64,
    P: Fn(u64, u64) -> u64,
>(
    buf: &mut Matrix<u64>,
    y: &Matrix<u64>,
    d: &Matrix<u64>,
    target_unit: usize,
    target_period: usize,
    lambda_time: u64,
    lambda_unit: u64,
    time_dist: &Matrix<i64>,
    rms: &R,
    time_decay: &T,
    unit_decay: &U,
    multiply: &P,
)
    requires
        same_shape(y, d),
        old(buf).wf(),
        old(buf).rows == y.rows,
        old(buf).cols == y.cols,
        target_unit < y.cols,
        target_period < y.rows,
        time_dist.wf(),
        time_dist.rows == y.rows,
        time_dist.cols == y.rows,
        forall|pairs: &Vec<(u64, u64)>| #[trigger] call_requires(*rms, (pairs,)),
        forall|distance: i64| #[trigger] call_requires(*time_decay, (lambda_time, distance)),
        forall|distance: u64| #[trigger] call_requires(*unit_decay, (lambda_unit, distance)),
        forall|a: u64, b: u64| #[trigger] call_requires(*multiply, (a, b)),
    ensures
        exists|cache: UnitDistanceCache| #[trigger]
            cache.caches(y, d) && weighs_cells(
                final(buf),
                &cache,
                target_unit,
                target_period,
                lambda_time,
                lambda_unit,
                time_dist,
                *rms,
                *time_decay,
                *unit_decay,
                *multiply,
            ),
{
    let cache: UnitDistanceCache = UnitDistanceCache::build(y, d);
    compute_weight_matrix_cached_into(
        buf,
        &cache,
        target_unit,
        target_period,
        lambda_time,
        lambda_unit,
        time_dist,
        rms,
        time_decay,
        unit_decay,
        multiply,
    );
}

/// `r` are weights of all cells, stored sparsely where most of them are
/// negligible.  `threshold` gets the largest period weight and the largest unit
/// weight; `share` gives the ratio of two counts.
pub open spec fn stores_adaptively<
    P: Fn(u64, u64) -> u64,
    H: Fn(u64, u64) -> u64,
    Q: Fn(usize, usize) -> u64,
>(
    r: WeightMatrix,
    time: Seq<u64>,
    unit: Seq<u64>,
    multiply: P,
    threshold: H,
    share: Q,
) -> bool {
    exists|w: Matrix<u64>, least: u64, kept: Vec<(usize, usize)>, ratio: u64|
        {
            &&& #[trigger] is_product(&w, time, unit, multiply)
            &&& #[trigger] call_ensures(
                threshold,
                (largest_or_zero(time), largest_or_zero(unit)),
                least,
            )
            &&& lists_cells(
                kept@,
                w.rows as int,
                w.cols as int,
                |t: int, i: int| bits::le(least, w.at(t, i)),
            )
            &&& #[trigger] call_ensures(
                share,
                (kept@.len() as usize, (time.len() * unit.len()) as usize),
                ratio,
            )
            &&& stores(r, w, least, ratio)
        }
}

fn adaptive_product<
    P: Fn(u64, u64) -> u64,
    H: Fn(u64, u64) -> u64,
    Q: Fn(usize, usize) -> u64,
>(
    time: &Vec<u64>,
    unit: &Vec<u64>,
    multiply: &P,
    threshold: &H,
    share: &Q,
) -> (r: WeightMatrix)
    requires
        time@.len() * unit@.len() <= usize::MAX,
        forall|a: u64, b: u64| #[trigger] call_requires(*multiply, (a, b)),
        forall|a: u64, b: u64| #[trigger] call_requires(*threshold, (a, b)),
        forall|a: usize, b: usize| #[trigger] call_requires(*share, (a, b)),
    ensures
        stores_adaptively(r, time@, unit@, *multiply, *threshold, *share),
{
    let w: Matrix<u64> = weight_product(time, unit, multiply);
    let least: u64 = (*threshold)(max_or_zero(time), max_or_zero(unit));
    let kept: Vec<(usize, usize)> = retained_cells(&w, least);
    let ratio: u64 = (*share)(kept.len(), w.data.len());
    proof {
        assert(is_product(&w, time@, unit@, *multiply));
        assert(call_ensures(
            *threshold,
            (largest_or_zero(time@), largest_or_zero(unit@)),
            least,
        ));
        assert(call_ensures(
            *share,
            (kept@.len() as usize, (time@.len() * unit@.len()) as usize),
            ratio,
        ));
    }
    store_weights(w, least, ratio)
}

/// `r` are the weights of all cells centred on a cell, stored sparsely where
/// most of them are negligible.
pub open spec fn weighs_adaptively<
    R: Fn(&Vec<(u64, u64)>) -> u64,
    T: Fn(u64, i64) -> u64,
    U: Fn(u64, u64) -> u64,
    P: Fn(u64, u64) -> u64,
    H: Fn(u64, u64) -> u64,
    Q: Fn(usize, usize) -> u64,
>(
    r: WeightMatrix,
    cache: &UnitDistanceCache,
    target_unit: usize,
    target_period: usize,
    lambda_time: u64,
    lambda_unit: u64,
    time_dist: &Matrix<i64>,
    rms: R,
    time_decay: T,
    unit_decay: U,
    multiply: P,
    threshold: H,
    share: Q,
) -> bool {
    exists|vectors: (Vec<u64>, Vec<u64>)| #[trigger]
        weighs_cell(
            vectors,
            cache,
            target_unit,
            target_period,
            lambda_time,
            lambda_unit,
            time_dist,
            rms,
            time_decay,
            unit_decay,
        ) && stores_adaptively(r, vectors.0@, vectors.1@, multiply, threshold, share)
}

/// Weights of all cells of a panel centred on a cell, stored sparsely where
/// most of them are negligible.
pub fn compute_weight_matrix_adaptive_cached<
    R: Fn(&Vec<(u64, u64)>) -> u64,
    T: Fn(u64, i64) -> u64,
    U: Fn(u64, u64) -> u64,
    P: Fn(u64, u64) -> u64,
    H: Fn(u64, u64) -> u64,
    Q: Fn(usize, usize) -> u64,
>(
    cache: &UnitDistanceCache,
    target_unit: usize,
    target_period: usize,
    lambda_time: u64,
    lambda_unit: u64,
    time_dist: &Matrix<i64>,
    rms: &R,
    time_decay: &T,
    unit_decay: &U,
    multiply: &P,
    threshold: &H,
    share: &Q,
) -> (r: WeightMatrix)
    requires
        cache.wf(),
        target_unit < cache.y.cols,
        target_period < cache.y.rows,
        time_dist.wf(),
        time_dist.rows == cache.y.rows,
        time_dist.cols == cache.y.rows,
        forall|pairs: &Vec<(u64, u64)>| #[trigger] call_requires(*rms, (pairs,)),
        forall|distance: i64| #[trigger] call_requires(*time_decay, (lambda_time, distance)),
        forall|distance: u64| #[trigger] call_requires(*unit_decay, (lambda_unit, distance)),
        forall|a: u64, b: u64| #[trigger] call_requires(*multiply, (a, b)),
        forall|a: u64, b: u64| #[trigger] call_requires(*threshold, (a, b)),
        forall|a: usize, b: usize| #[trigger] call_requires(*share, (a, b)),
    ensures
        weighs_adaptively(
            r,
            cache,
            target_unit,
            target_period,
            lambda_time,
            lambda_unit,
            time_dist,
            *rms,
            *time_decay,
            *unit_decay,
            *multiply,
            *threshold,
            *share,
        ),
{
    let vectors: (Vec<u64>, Vec<u64>) = compute_twostep_weight_vectors_cached(
        cache,
        target_unit,
        target_period,
        lambda_time,
        lambda_unit,
        time_dist,
        rms,
        time_decay,
        unit_decay,
    );
    assert(cache.y.data.len() == cache.y.rows * cache.y.cols);
    adaptive_product(&vectors.0, &vectors.1, multiply, threshold, share)
}

/// Weights of all cells of a panel centred on a cell, stored sparsely where
/// most of them are negligible.
pub fn compute_weight_matrix_adaptive<
    R: Fn(&Vec<(u64, u64)>) -> u64,
    T: Fn(u64, i64) -> u64,
    U: Fn(u64, u64) -> u64,
    P: Fn(u64, u64) -> u64,
    H: Fn(u64, u64) -> u64,
    Q: Fn(usize, usize) -> u64,
>(
    y: &Matrix<u64>,
    d: &Matrix<u64>,
    target_unit: usize,
    target_period: usize,
    lambda_time: u64,
    lambda_unit: u64,
    time_dist: &Matrix<i64>,
    rms: &R,
    time_decay: &T,
    unit_decay: &U,
    multiply: &P,
    threshold: &H,
    share: &Q,
) -> (r: WeightMatrix)
    requires
        same_shape(y, d),
        target_unit < y.cols,
        target_period < y.rows,
        time_dist.wf(),
        time_dist.rows == y.rows,
        time_dist.cols == y.rows,
        forall|pairs: &Vec<(u64, u64)>| #[trigger] call_requires(*rms, (pairs,)),
        forall|distance: i64| #[trigger] call_requires(*time_decay, (lambda_time, distance)),
        forall|distance: u64| #[trigger] call_requires(*unit_decay, (lambda_unit, distance)),
        forall|a: u64, b: u64| #[trigger] call_requires(*multiply, (a, b)),
        forall|a: u64, b: u64| #[trigger] call_requires(*threshold, (a, b)),
        forall|a: usize, b: usize| #[trigger] call_requires(*share, (a, b)),
    ensures
        exists|cache: UnitDistanceCache| #[trigger]
            cache.caches(y, d) && weighs_adaptively(
                r,
                &cache,
                target_unit,
                target_period,
                lambda_time,
                lambda_unit,
                time_dist,
                *rms,
                *time_decay,
                *unit_decay,
                *multiply,
                *threshold,
                *share,
            ),
{
    let cache: UnitDistanceCache = UnitDistanceCache::build(y, d);
    compute_weight_matrix_adaptive_cached(
        &cache,
        target_unit,
        target_period,
        lambda_time,
        lambda_unit,
        time_dist,
        rms,
        time_decay,
        unit_decay,
        multiply,
        threshold,
        share,
    )
}

/// `average` is the trajectory of the treated units before treatment: in each
/// period the average over those observed, undefined where there are none.
pub open spec fn is_trajectory<A: Fn(&Vec<u64>) -> u64>(
    average: Seq<u64>,
    y: &Matrix<u64>,
    d: &Matrix<u64>,
    n_pre: usize,
    mean: A,
) -> bool {
    &&& average.len() == y.rows
    &&& forall|t: usize|
        t < n_pre ==> averages_period(#[trigger] average[t as int], y, d, t, mean)
}

/// `v` is the average over the treated units observed in period `t`.
pub open spec fn averages_period<A: Fn(&Vec<u64>) -> u64>(
    v: u64,
    y: &Matrix<u64>,
    d: &Matrix<u64>,
    t: usize,
    mean: A,
) -> bool {
    exists|units: Seq<usize>|
        {
            &&& #[trigger] lists_trajectory(units, y, d, t)
            &&& if units.len() == 0 {
                v == bits::NAN
            } else {
                exists|values: Vec<u64>|
                    values@ == Seq::new(units.len(), |k: int| y.at(t as int, units[k] as int))
                        && #[trigger] call_ensures(mean, (&values,), v)
            }
        }
}

fn average_period<A: Fn(&Vec<u64>) -> u64>(
    y: &Matrix<u64>,
    d: &Matrix<u64>,
    t: usize,
    mean: &A,
) -> (r: u64)
    requires
        same_shape(y, d),
        t < y.rows,
        forall|v: &Vec<u64>| #[trigger] call_requires(*mean, (v,)),
    ensures
        averages_period(r, y, d, t, *mean),
{
    let units: Vec<usize> = trajectory_units(y, d, t);
    if units.len() == 0 {
        return bits::NAN;
    }
    let ghost all = Seq::new(units@.len(), |k: int| y.at(t as int, units@[k] as int));
    let mut values: Vec<u64> = Vec::new();
    let mut k: usize = 0;
    while k < units.len()
        invariant
            y.wf(),
            t < y.rows,
            k <= units@.len(),
            forall|k: int| 0 <= k < units@.len() ==> (#[trigger] units@[k]) < y.cols,
            all == Seq::new(units@.len(), |k: int| y.at(t as int, units@[k] as int)),
            values@ == all.take(k as int),
        decreases units@.len() - k,
    {
        values.push(y.get(t, units[k]));
        k = k + 1;
    }
    assert(values@ =~= all);
    let v: u64 = (*mean)(&values);
    assert(call_ensures(*mean, (&values,), v));
    v
}

/// `v` is the deviation of unit `i` from the treated trajectory: the root mean
/// square of the differences in the periods before treatment in which both
/// are observed, infinite where there are none.
pub open spec fn deviates<R: Fn(&Vec<(u64, u64)>) -> u64>(
    v: u64,
    y: &Matrix<u64>,
    average: Seq<u64>,
    n_pre: usize,
    i: usize,
    rms: R,
) -> bool {
    exists|periods: Seq<usize>|
        {
            &&& #[trigger] lists_overlap(periods, y, average, n_pre, i)
            &&& if periods.len() == 0 {
                v == bits::INFINITY
            } else {
                exists|pairs: Vec<(u64, u64)>|
                    pairs@ == Seq::new(
                        periods.len(),
                        |k: int| (average[periods[k] as int], y.at(periods[k] as int, i as int)),
                    ) && #[trigger] call_ensures(rms, (&pairs,), v)
            }
        }
}

fn deviation<R: Fn(&Vec<(u64, u64)>) -> u64>(
    y: &Matrix<u64>,
    average: &Vec<u64>,
    n_pre: usize,
    i: usize,
    rms: &R,
) -> (r: u64)
    requires
        y.wf(),
        n_pre <= y.rows,
        n_pre <= average@.len(),
        i < y.cols,
        forall|pairs: &Vec<(u64, u64)>| #[trigger] call_requires(*rms, (pairs,)),
    ensures
        deviates(r, y, average@, n_pre, i, *rms),
{
    let periods: Vec<usize> = overlap_periods(y, average, n_pre, i);
    if periods.len() == 0 {
        return bits::INFINITY;
    }
    let ghost all = Seq::new(
        periods@.len(),
        |k: int| (average@[periods@[k] as int], y.at(periods@[k] as int, i as int)),
    );
    let mut pairs: Vec<(u64, u64)> = Vec::new();
    let mut k: usize = 0;
    while k < periods.len()
        invariant
            y.wf(),
            i < y.cols,
            n_pre <= y.rows,
            n_pre <= average@.len(),
            k <= periods@.len(),
            forall|k: int| 0 <= k < periods@.len() ==> (#[trigger] periods@[k]) < n_pre,
            all == Seq::new(
                periods@.len(),
                |k: int| (average@[periods@[k] as int], y.at(periods@[k] as int, i as int)),
            ),
            pairs@ == all.take(k as int),
        decreases periods@.len() - k,
    {
        let t: usize = periods[k];
        pairs.push((average[t], y.get(t, i)));
        k = k + 1;
    }
    assert(pairs@ =~= all);
    let v: u64 = (*rms)(&pairs);
    assert(call_ensures(*rms, (&pairs,), v));
    v
}

/// Period and unit weights of the joint method.
pub open spec fn weighs_jointly<
    A: Fn(&Vec<u64>) -> u64,
    R: Fn(&Vec<(u64, u64)>) -> u64,
    T: Fn(u64, u128) -> u64,
    U: Fn(u64, u64) -> u64,
>(
    r: (Vec<u64>, Vec<u64>),
    y: &Matrix<u64>,
    d: &Matrix<u64>,
    lambda_time: u64,
    lambda_unit: u64,
    treated_periods: usize,
    mean: A,
    rms: R,
    time_decay: T,
    unit_decay: U,
) -> bool {
    let n_pre = pre_periods(y.rows, treated_periods);
    &&& r.0@.len() == y.rows
    &&& r.1@.len() == y.cols
    &&& forall|t: int|
        0 <= t < y.rows ==> call_ensures(
            time_decay,
            (lambda_time, doubled_distance(t, y.rows as int, treated_periods as int) as u128),
            #[trigger] r.0@[t],
        )
    &&& exists|average: Seq<u64>, distances: Seq<u64>|
        {
            &&& #[trigger] is_trajectory(average, y, d, n_pre, mean)
            &&& #[trigger] distances.len() == y.cols
            &&& forall|i: usize|
                i < y.cols ==> deviates(
                    #[trigger] distances[i as int],
                    y,
                    average,
                    n_pre,
                    i,
                    rms,
                ) && gives_kernel(
                    r.1@[i as int],
                    joint_kernel(n_pre, distances[i as int]),
                    lambda_unit,
                    unit_decay,
                )
        }
}

/// Period and unit weights shared by all cells.  `time_decay` gets the bandwidth
/// and twice the distance of a period from the middle of the treated block.
pub fn compute_joint_weight_vectors<
    A: Fn(&Vec<u64>) -> u64,
    R: Fn(&Vec<(u64, u64)>) -> u64,
    T: Fn(u64, u128) -> u64,
    U: Fn(u64, u64) -> u64,
>(
    y: &Matrix<u64>,
    d: &Matrix<u64>,
    lambda_time: u64,
    lambda_unit: u64,
    treated_periods: usize,
    mean: &A,
    rms: &R,
    time_decay: &T,
    unit_decay: &U,
) -> (r: (Vec<u64>, Vec<u64>))
    requires
        same_shape(y, d),
        forall|v: &Vec<u64>| #[trigger] call_requires(*mean, (v,)),
        forall|pairs: &Vec<(u64, u64)>| #[trigger] call_requires(*rms, (pairs,)),
        forall|distance: u128| #[trigger] call_requires(*time_decay, (lambda_time, distance)),
        forall|distance: u64| #[trigger] call_requires(*unit_decay, (lambda_unit, distance)),
    ensures
        weighs_jointly(
            r,
            y,
            d,
            lambda_time,
            lambda_unit,
            treated_periods,
            *mean,
            *rms,
            *time_decay,
            *unit_decay,
        ),
{
    let n_pre: usize = pre_period_count(y.rows, treated_periods);
    let mut time: Vec<u64> = Vec::new();
    let mut average: Vec<u64> = Vec::new();
    let mut t: usize = 0;
    while t < y.rows
        invariant
            same_shape(y, d),
            t <= y.rows,
            forall|v: &Vec<u64>| #[trigger] call_requires(*mean, (v,)),
            forall|distance: u128| #[trigger] call_requires(*time_decay, (lambda_time, distance)),
            time@.len() == t,
            average@.len() == t,
            forall|s: int|
                0 <= s < t ==> call_ensures(
                    *time_decay,
                    (
                        lambda_time,
                        doubled_distance(s, y.rows as int, treated_periods as int) as u128,
                    ),
                    #[trigger] time@[s],
                ),
            forall|s: usize|
                s < t ==> averages_period(#[trigger] average@[s as int], y, d, s, *mean),
        decreases y.rows - t,
    {
        let distance: u128 = doubled_time_distance(t, y.rows, treated_periods);
        let w: u64 = (*time_decay)(lambda_time, distance);
        time.push(w);
        average.push(average_period(y, d, t, mean));
        t = t + 1;
    }
    let mut unit: Vec<u64> = Vec::new();
    let ghost mut distances: Seq<u64> = Seq::empty();
    let mut i: usize = 0;
    while i < y.cols
        invariant
            y.wf(),
            i <= y.cols,
            n_pre <= y.rows,
            average@.len() == y.rows,
            forall|pairs: &Vec<(u64, u64)>| #[trigger] call_requires(*rms, (pairs,)),
            forall|distance: u64| #[trigger] call_requires(*unit_decay, (lambda_unit, distance)),
            unit@.len() == i,
            distances.len() == i,
            forall|j: usize|
                j < i ==> deviates(
                    #[trigger] distances[j as int],
                    y,
                    average@,
                    n_pre,
                    j,
                    *rms,
                ) && gives_kernel(
                    unit@[j as int],
                    joint_kernel(n_pre, distances[j as int]),
                    lambda_unit,
                    *unit_decay,
                ),
        decreases y.cols - i,
    {
        let distance: u64 = deviation(y, &average, n_pre, i, rms);
        let w: u64 = kernel_value(joint_unit_kernel(n_pre, distance), lambda_unit, unit_decay);
        unit.push(w);
        proof {
            distances = distances.push(distance);
        }
        i = i + 1;
    }
    assert(is_trajectory(average@, y, d, n_pre, *mean));
    assert(distances.len() == y.cols);
    (time, unit)
}

/// `w` combines period weights, unit weights and the treatment of each cell.
pub open spec fn combines<C: Fn(u64, u64, u64) -> u64>(
    w: &Matrix<u64>,
    time: Seq<u64>,
    unit: Seq<u64>,
    d: &Matrix<u64>,
    combine: C,
) -> bool {
    &&& same_shape(w, d)
    &&& forall|t: usize, i: usize|
        t < d.rows && i < d.cols ==> call_ensures(
            combine,
            (time[t as int], unit[i as int], d.at(t as int, i as int)),
            #[trigger] w.at(t as int, i as int),
        )
}

/// `w` are the joint weights of all cells of a panel.
pub open spec fn weighs_cells_jointly<
    A: Fn(&Vec<u64>) -> u64,
    R: Fn(&Vec<(u64, u64)>) -> u64,
    T: Fn(u64, u128) -> u64,
    U: Fn(u64, u64) -> u64,
    C: Fn(u64, u64, u64) -> u64,
>(
    w: &Matrix<u64>,
    y: &Matrix<u64>,
    d: &Matrix<u64>,
    lambda_time: u64,
    lambda_unit: u64,
    treated_periods: usize,
    mean: A,
    rms: R,
    time_decay: T,
    unit_decay: U,
    combine: C,
) -> bool {
    exists|vectors: (Vec<u64>, Vec<u64>)| #[trigger]
        weighs_jointly(
            vectors,
            y,
            d,
            lambda_time,
            lambda_unit,
            treated_periods,
            mean,
            rms,
            time_decay,
            unit_decay,
        ) && combines(w, vectors.0@, vectors.1@, d, combine)
}

/// Joint weights of all cells of a panel.  `combine` gets a period weight, a
/// unit weight and the treatment of the cell.
pub fn compute_joint_weights<
    A: Fn(&Vec<u64>) -> u64,
    R: Fn(&Vec<(u64, u64)>) -> u64,
    T: Fn(u64, u128) -> u64,
    U: Fn(u64, u64) -> u64,
    C: Fn(u64, u64, u64) -> u64,
>(
    y: &Matrix<u64>,
    d: &Matrix<u64>,
    lambda_time: u64,
    lambda_unit: u64,
    treated_periods: usize,
    mean: &A,
    rms: &R,
    time_decay: &T,
    unit_decay: &U,
    combine: &C,
) -> (r: Matrix<u64>)
    requires
        same_shape(y, d),
        forall|v: &Vec<u64>| #[trigger] call_requires(*mean, (v,)),
        forall|pairs: &Vec<(u64, u64)>| #[trigger] call_requires(*rms, (pairs,)),
        forall|distance: u128| #[trigger] call_requires(*time_decay, (lambda_time, distance)),
        forall|distance: u64| #[trigger] call_requires(*unit_decay, (lambda_unit, distance)),
        forall|a: u64, b: u64, c: u64| #[trigger] call_requires(*combine, (a, b, c)),
    ensures
        weighs_cells_jointly(
            &r,
            y,
            d,
            lambda_time,
            lambda_unit,
            treated_periods,
            *mean,
            *rms,
            *time_decay,
            *unit_decay,
            *combine,
        ),
        (forall|t: u64, u: u64, v: u64, out: u64|
            bits::same(v, bits::ONE) && #[trigger] call_ensures(*combine, (t, u, v), out)
                ==> !bits::finite(out) || bits::zero(out)) ==> masked_at_treated(d, &r),
{
    let vectors: (Vec<u64>, Vec<u64>) = compute_joint_weight_vectors(
        y,
        d,
        lambda_time,
        lambda_unit,
        treated_periods,
        mean,
        rms,
        time_decay,
        unit_decay,
    );
    let (time, unit): (&Vec<u64>, &Vec<u64>) = (&vectors.0, &vectors.1);
    assert(d.data.len() == d.rows * d.cols);
    let f = |t: usize, i: usize| -> (v: u64)
        requires
            d.has(t, i) && time@.len() == d.rows && unit@.len() == d.cols && (forall|
                a: u64,
                b: u64,
                c: u64,
            | #[trigger]
                call_requires(*combine, (a, b, c))),
        ensures
            call_ensures(
                *combine,
                (time@[t as int], unit@[i as int], d.at(t as int, i as int)),
                v,
            ),
    { (*combine)(time[t], unit[i], d.get(t, i)) };
    Matrix::build(d.rows, d.cols, f)
}

/// Every cell of `now` that lies before cell `(t, i)`, by period and within a
/// period by unit, holds its joint weight.
spec fn combined<C: Fn(u64, u64, u64) -> u64>(
    now: &Matrix<u64>,
    time: Seq<u64>,
    unit: Seq<u64>,
    d: &Matrix<u64>,
    t: int,
    i: int,
    combine: C,
) -> bool {
    &&& same_shape(now, d)
    &&& time.len() == d.rows
    &&& unit.len() == d.cols
    &&& forall|a: usize, b: usize|
        a < d.rows && b < d.cols && (a < t || (a == t && b < i)) ==> call_ensures(
            combine,
            (time[a as int], unit[b as int], d.at(a as int, b as int)),
            #[trigger] now.at(a as int, b as int),
        )
}

/// As [`compute_joint_weights`], into a buffer.
pub fn compute_joint_weights_into<
    A: Fn(&Vec<u64>) -> u64,
    R: Fn(&Vec<(u64, u64)>) -> u64,
    T: Fn(u64, u128) -> u64,
    U: Fn(u64, u64) -> u64,
    C: Fn(u64, u64, u64) -> u64,
>(
    buf: &mut Matrix<u64>,
    y: &Matrix<u64>,
    d: &Matrix<u64>,
    lambda_time: u64,
    lambda_unit: u64,
    treated_periods: usize,
    mean: &A,
    rms: &R,
    time_decay: &T,
    unit_decay: &U,
    combine: &C,
)
    requires
        old(buf).wf(),
        old(buf).rows == y.rows,
        old(buf).cols == y.cols,
        same_shape(y, d),
        forall|v: &Vec<u64>| #[trigger] call_requires(*mean, (v,)),
        forall|pairs: &Vec<(u64, u64)>| #[trigger] call_requires(*rms, (pairs,)),
        forall|distance: u128| #[trigger] call_requires(*time_decay, (lambda_time, distance)),
        forall|distance: u64| #[trigger] call_requires(*unit_decay, (lambda_unit, distance)),
        forall|a: u64, b: u64, c: u64| #[trigger] call_requires(*combine, (a, b, c)),
    ensures
        weighs_cells_jointly(
            final(buf),
            y,
            d,
            lambda_time,
            lambda_unit,
            treated_periods,
            *mean,
            *rms,
            *time_decay,
            *unit_decay,
            *combine,
        ),
        (forall|t: u64, u: u64, v: u64, out: u64|
            bits::same(v, bits::ONE) && #[trigger] call_ensures(*combine, (t, u, v), out)
                ==> !bits::finite(out) || bits::zero(out)) ==> masked_at_treated(d, final(buf)),
{
    let vectors: (Vec<u64>, Vec<u64>) = compute_joint_weight_vectors(
        y,
        d,
        lambda_time,
        lambda_unit,
        treated_periods,
        mean,
        rms,
        time_decay,
        unit_decay,
    );
    let (time, unit): (&Vec<u64>, &Vec<u64>) = (&vectors.0, &vectors.1);
    let mut t: usize = 0;
    while t < d.rows
        invariant
            t <= d.rows,
            forall|a: u64, b: u64, c: u64| #[trigger] call_requires(*combine, (a, b, c)),
            combined(&*buf, time@, unit@, d, t as int, 0, *combine),
        decreases d.rows - t,
    {
        let mut i: usize = 0;
        while i < d.cols
            invariant
                t < d.rows,
                i <= d.cols,
                forall|a: u64, b: u64, c: u64| #[trigger] call_requires(*combine, (a, b, c)),
                combined(&*buf, time@, unit@, d, t as int, i as int, *combine),
            decreases d.cols - i,
        {
            let v: u64 = (*combine)(time[t], unit[i], d.get(t, i));
            buf.set(t, i, v);
            i = i + 1;
        }
        t = t + 1;
    }
}

/// Where combining with a treated cell gives zero, or nothing finite, joint
/// weights keep every treated cell out of a fit.
pub proof fn law_joint_weights_are_masked<
    A: Fn(&Vec<u64>) -> u64,
    R: Fn(&Vec<(u64, u64)>) -> u64,
    T: Fn(u64, u128) -> u64,
    U: Fn(u64, u64) -> u64,
    C: Fn(u64, u64, u64) -> u64,
>(
    w: &Matrix<u64>,
    y: &Matrix<u64>,
    d: &Matrix<u64>,
    lambda_time: u64,
    lambda_unit: u64,
    treated_periods: usize,
    mean: A,
    rms: R,
    time_decay: T,
    unit_decay: U,
    combine: C,
)
    requires
        weighs_cells_jointly(
            w,
            y,
            d,
            lambda_time,
            lambda_unit,
            treated_periods,
            mean,
            rms,
            time_decay,
            unit_decay,
            combine,
        ),
        forall|t: u64, u: u64, v: u64, out: u64|
            bits::same(v, bits::ONE) && #[trigger] call_ensures(combine, (t, u, v), out)
                ==> !bits::finite(out) || bits::zero(out),
    ensures
        masked_at_treated(d, w),
{
    let vectors = choose|vectors: (Vec<u64>, Vec<u64>)| #[trigger]
        weighs_jointly(
            vectors,
            y,
            d,
            lambda_time,
            lambda_unit,
            treated_periods,
            mean,
            rms,
            time_decay,
            unit_decay,
        ) && combines(w, vectors.0@, vectors.1@, d, combine);
    assert forall|t: usize, i: usize|
        t < d.rows && i < d.cols && #[trigger] treated(d, t as int, i as int) implies
    !bits::finite(w.at(t as int, i as int)) || bits::zero(w.at(t as int, i as int)) by {
        assert(call_ensures(
            combine,
            (vectors.0@[t as int], vectors.1@[i as int], d.at(t as int, i as int)),
            w.at(t as int, i as int),
        ));
    }
}

/// The distance table holds the distances of single pairs, and zero from a unit
/// to itself.
pub proof fn law_table_holds_distances<R: Fn(&Vec<(u64, u64)>) -> u64>(
    r: &Matrix<u64>,
    cache: &UnitDistanceCache,
    upper: Seq<Vec<u64>>,
    rms: R,
    a: usize,
    b: usize,
)
    requires
        tabulates(r, cache, upper, rms),
        a < b < cache.y.cols,
    ensures
        distance_of(r.at(a as int, b as int), cache, a, b, None, rms),
        r.at(b as int, a as int) == r.at(a as int, b as int),
        r.at(a as int, a as int) == bits::ZERO,
{
    let row = upper[a as int]@;
    assert(is_distance_row(row, cache, a, rms));
    let k = b - a - 1;
    assert(distance_of(row[k], cache, a, (a + 1 + k) as usize, None, rms));
    assert(mirrored(upper, a as int, b as int) == row[k]);
    assert(mirrored(upper, b as int, a as int) == row[k]);
    assert(mirrored(upper, a as int, a as int) == bits::ZERO);
}

/// Weights that are stored adaptively are the dense ones: either the dense
/// weights themselves, or those of them that reach a threshold.
pub proof fn law_adaptive_weights_are_the_dense_ones<
    R: Fn(&Vec<(u64, u64)>) -> u64,
    T: Fn(u64, i64) -> u64,
    U: Fn(u64, u64) -> u64,
    P: Fn(u64, u64) -> u64,
    H: Fn(u64, u64) -> u64,
    Q: Fn(usize, usize) -> u64,
>(
    r: WeightMatrix,
    cache: &UnitDistanceCache,
    target_unit: usize,
    target_period: usize,
    lambda_time: u64,
    lambda_unit: u64,
    time_dist: &Matrix<i64>,
    rms: R,
    time_decay: T,
    unit_decay: U,
    multiply: P,
    threshold: H,
    share: Q,
)
    requires
        weighs_adaptively(
            r,
            cache,
            target_unit,
            target_period,
            lambda_time,
            lambda_unit,
            time_dist,
            rms,
            time_decay,
            unit_decay,
            multiply,
            threshold,
            share,
        ),
    ensures
        exists|w: Matrix<u64>|
            {
                &&& #[trigger] weighs_cells(
                    &w,
                    cache,
                    target_unit,
                    target_period,
                    lambda_time,
                    lambda_unit,
                    time_dist,
                    rms,
                    time_decay,
                    unit_decay,
                    multiply,
                )
                &&& match r {
                    WeightMatrix::Dense(dense) => dense == w,
                    WeightMatrix::Sparse(sparse) => sparse.retains(&w, sparse.threshold),
                }
            },
{
    let vectors = choose|vectors: (Vec<u64>, Vec<u64>)| #[trigger]
        weighs_cell(
            vectors,
            cache,
            target_unit,
            target_period,
            lambda_time,
            lambda_unit,
            time_dist,
            rms,
            time_decay,
            unit_decay,
        ) && stores_adaptively(r, vectors.0@, vectors.1@, multiply, threshold, share);
    let (time, unit) = (vectors.0@, vectors.1@);
    let (w, least, kept, ratio) = choose|
        w: Matrix<u64>,
        least: u64,
        kept: Vec<(usize, usize)>,
        ratio: u64,
    |
        {
            &&& #[trigger] is_product(&w, time, unit, multiply)
            &&& #[trigger] call_ensures(
                threshold,
                (largest_or_zero(time), largest_or_zero(unit)),
                least,
            )
            &&& lists_cells(
                kept@,
                w.rows as int,
                w.cols as int,
                |t: int, i: int| bits::le(least, w.at(t, i)),
            )
            &&& #[trigger] call_ensures(
                share,
                (kept@.len() as usize, (time.len() * unit.len()) as usize),
                ratio,
            )
            &&& stores(r, w, least, ratio)
        };
    assert(weighs_cells(
        &w,
        cache,
        target_unit,
        target_period,
        lambda_time,
        lambda_unit,
        time_dist,
        rms,
        time_decay,
        unit_decay,
        multiply,
    ));
}

/// Two panels agree in the periods before treatment.
pub open spec fn agree_before(a: &Matrix<u64>, b: &Matrix<u64>, n_pre: usize) -> bool {
    &&& a.rows == b.rows
    &&& a.cols == b.cols
    &&& forall|t: int, i: int|
        0 <= t < n_pre && 0 <= i < a.cols ==> #[trigger] a.at(t, i) == b.at(t, i)
}

proof fn lemma_period_average<A: Fn(&Vec<u64>) -> u64>(
    v: u64,
    a: &Matrix<u64>,
    b: &Matrix<u64>,
    d: &Matrix<u64>,
    n_pre: usize,
    t: usize,
    mean: A,
)
    requires
        agree_before(a, b, n_pre),
        t < n_pre,
        averages_period(v, a, d, t, mean),
    ensures
        averages_period(v, b, d, t, mean),
{
    let units = choose|units: Seq<usize>|
        {
            &&& #[trigger] lists_trajectory(units, a, d, t)
            &&& if units.len() == 0 {
                v == bits::NAN
            } else {
                exists|values: Vec<u64>|
                    values@ == Seq::new(units.len(), |k: int| a.at(t as int, units[k] as int))
                        && #[trigger] call_ensures(mean, (&values,), v)
            }
        };
    assert(lists_trajectory(units, b, d, t)) by {
        assert forall|i: usize| i < b.cols && ever_treated(d, i as int) && bits::finite(
            b.at(t as int, i as int),
        ) implies #[trigger] units.contains(i) by {
            assert(a.at(t as int, i as int) == b.at(t as int, i as int));
        }
        assert forall|k: int| 0 <= k < units.len() implies (#[trigger] units[k]) < b.cols
            && ever_treated(d, units[k] as int) && bits::finite(
            b.at(t as int, units[k] as int),
        ) by {
            assert(a.at(t as int, units[k] as int) == b.at(t as int, units[k] as int));
        }
    }
    if units.len() > 0 {
        let values = choose|values: Vec<u64>|
            values@ == Seq::new(units.len(), |k: int| a.at(t as int, units[k] as int))
                && #[trigger] call_ensures(mean, (&values,), v);
        assert forall|k: int| 0 <= k < units.len() implies a.at(t as int, units[k] as int) == b.at(
            t as int,
            units[k] as int,
        ) by {
            assert(units[k] < b.cols);
        }
        assert(values@ =~= Seq::new(units.len(), |k: int| b.at(t as int, units[k] as int)));
    }
}

proof fn lemma_deviation_before<R: Fn(&Vec<(u64, u64)>) -> u64>(
    v: u64,
    a: &Matrix<u64>,
    b: &Matrix<u64>,
    average: Seq<u64>,
    n_pre: usize,
    i: usize,
    rms: R,
)
    requires
        agree_before(a, b, n_pre),
        i < a.cols,
        deviates(v, a, average, n_pre, i, rms),
    ensures
        deviates(v, b, average, n_pre, i, rms),
{
    let periods = choose|periods: Seq<usize>|
        {
            &&& #[trigger] lists_overlap(periods, a, average, n_pre, i)
            &&& if periods.len() == 0 {
                v == bits::INFINITY
            } else {
                exists|pairs: Vec<(u64, u64)>|
                    pairs@ == Seq::new(
                        periods.len(),
                        |k: int| (average[periods[k] as int], a.at(periods[k] as int, i as int)),
                    ) && #[trigger] call_ensures(rms, (&pairs,), v)
            }
        };
    assert(lists_overlap(periods, b, average, n_pre, i)) by {
        assert forall|t: usize| t < n_pre && bits::finite(b.at(t as int, i as int)) && bits::finite(
            average[t as int],
        ) implies #[trigger] periods.contains(t) by {
            assert(a.at(t as int, i as int) == b.at(t as int, i as int));
        }
        assert forall|k: int| 0 <= k < periods.len() implies (#[trigger] periods[k]) < n_pre
            && bits::finite(b.at(periods[k] as int, i as int)) && bits::finite(
            average[periods[k] as int],
        ) by {
            assert(a.at(periods[k] as int, i as int) == b.at(periods[k] as int, i as int));
        }
    }
    if periods.len() > 0 {
        let pairs = choose|pairs: Vec<(u64, u64)>|
            pairs@ == Seq::new(
                periods.len(),
                |k: int| (average[periods[k] as int], a.at(periods[k] as int, i as int)),
            ) && #[trigger] call_ensures(rms, (&pairs,), v);
        assert forall|k: int| 0 <= k < periods.len() implies a.at(periods[k] as int, i as int)
            == b.at(periods[k] as int, i as int) by {
            assert(periods[k] < n_pre);
        }
        assert(pairs@ =~= Seq::new(
            periods.len(),
            |k: int| (average[periods[k] as int], b.at(periods[k] as int, i as int)),
        ));
    }
}

proof fn lemma_weighs_before<
    A: Fn(&Vec<u64>) -> u64,
    R: Fn(&Vec<(u64, u64)>) -> u64,
    T: Fn(u64, u128) -> u64,
    U: Fn(u64, u64) -> u64,
>(
    r: (Vec<u64>, Vec<u64>),
    a: &Matrix<u64>,
    b: &Matrix<u64>,
    d: &Matrix<u64>,
    lambda_time: u64,
    lambda_unit: u64,
    treated_periods: usize,
    mean: A,
    rms: R,
    time_decay: T,
    unit_decay: U,
)
    requires
        agree_before(a, b, pre_periods(a.rows, treated_periods)),
        weighs_jointly(
            r,
            a,
            d,
            lambda_time,
            lambda_unit,
            treated_periods,
            mean,
            rms,
            time_decay,
            unit_decay,
        ),
    ensures
        weighs_jointly(
            r,
            b,
            d,
            lambda_time,
            lambda_unit,
            treated_periods,
            mean,
            rms,
            time_decay,
            unit_decay,
        ),
{
    let n_pre = pre_periods(a.rows, treated_periods);
    let (average, distances) = choose|average: Seq<u64>, distances: Seq<u64>|
        {
            &&& #[trigger] is_trajectory(average, a, d, n_pre, mean)
            &&& #[trigger] distances.len() == a.cols
            &&& forall|i: usize|
                i < a.cols ==> deviates(
                    #[trigger] distances[i as int],
                    a,
                    average,
                    n_pre,
                    i,
                    rms,
                ) && gives_kernel(
                    r.1@[i as int],
                    joint_kernel(n_pre, distances[i as int]),
                    lambda_unit,
                    unit_decay,
                )
        };
    assert forall|t: usize| t < n_pre implies averages_period(
        #[trigger] average[t as int],
        b,
        d,
        t,
        mean,
    ) by {
        lemma_period_average(average[t as int], a, b, d, n_pre, t, mean);
    }
    assert(is_trajectory(average, b, d, n_pre, mean));
    assert(distances.len() == b.cols);
    assert forall|i: usize| i < b.cols implies deviates(
        #[trigger] distances[i as int],
        b,
        average,
        n_pre,
        i,
        rms,
    ) by {
        lemma_deviation_before(distances[i as int], a, b, average, n_pre, i, rms);
    }
}

/// Outcomes from the first treated period on do not enter the joint weights of
/// periods and units: panels that agree before it have the same ones.
pub proof fn law_later_outcomes_do_not_weigh_units<
    A: Fn(&Vec<u64>) -> u64,
    R: Fn(&Vec<(u64, u64)>) -> u64,
    T: Fn(u64, u128) -> u64,
    U: Fn(u64, u64) -> u64,
>(
    v: (Vec<u64>, Vec<u64>),
    a: &Matrix<u64>,
    b: &Matrix<u64>,
    d: &Matrix<u64>,
    lambda_time: u64,
    lambda_unit: u64,
    treated_periods: usize,
    mean: A,
    rms: R,
    time_decay: T,
    unit_decay: U,
)
    requires
        agree_before(a, b, pre_periods(a.rows, treated_periods)),
    ensures
        weighs_jointly(
            v,
            a,
            d,
            lambda_time,
            lambda_unit,
            treated_periods,
            mean,
            rms,
            time_decay,
            unit_decay,
        ) == weighs_jointly(
            v,
            b,
            d,
            lambda_time,
            lambda_unit,
            treated_periods,
            mean,
            rms,
            time_decay,
            unit_decay,
        ),
{
    assert(agree_before(b, a, pre_periods(b.rows, treated_periods))) by {
        assert forall|t: int, i: int|
            0 <= t < pre_periods(b.rows, treated_periods) && 0 <= i < b.cols implies
        #[trigger] b.at(t, i) == a.at(t, i) by {
            assert(a.at(t, i) == b.at(t, i));
        }
    }
    if weighs_jointly(
        v,
        a,
        d,
        lambda_time,
        lambda_unit,
        treated_periods,
        mean,
        rms,
        time_decay,
        unit_decay,
    ) {
        lemma_weighs_before(
            v,
            a,
            b,
            d,
            lambda_time,
            lambda_unit,
            treated_periods,
            mean,
            rms,
            time_decay,
            unit_decay,
        );
    }
    if weighs_jointly(
        v,
        b,
        d,
        lambda_time,
        lambda_unit,
        treated_periods,
        mean,
        rms,
        time_decay,
        unit_decay,
    ) {
        lemma_weighs_before(
            v,
            b,
            a,
            d,
            lambda_time,
            lambda_unit,
            treated_periods,
            mean,
            rms,
            time_decay,
            unit_decay,
        );
    }
}

/// A unit that is not observed before treatment has a joint weight of zero,
/// whatever the bandwidth, zero among them.
pub proof fn law_unobserved_unit_weighs_nothing<
    A: Fn(&Vec<u64>) -> u64,
    R: Fn(&Vec<(u64, u64)>) -> u64,
    T: Fn(u64, u128) -> u64,
    U: Fn(u64, u64) -> u64,
>(
    v: (Vec<u64>, Vec<u64>),
    y: &Matrix<u64>,
    d: &Matrix<u64>,
    lambda_time: u64,
    lambda_unit: u64,
    treated_periods: usize,
    mean: A,
    rms: R,
    time_decay: T,
    unit_decay: U,
    i: usize,
)
    requires
        weighs_jointly(
            v,
            y,
            d,
            lambda_time,
            lambda_unit,
            treated_periods,
            mean,
            rms,
            time_decay,
            unit_decay,
        ),
        i < y.cols,
        pre_periods(y.rows, treated_periods) > 0,
        forall|t: int|
            0 <= t < pre_periods(y.rows, treated_periods) ==> !bits::finite(
                #[trigger] y.at(t, i as int),
            ),
    ensures
        v.1@[i as int] == bits::ZERO,
{
    let n_pre = pre_periods(y.rows, treated_periods);
    let (average, distances) = choose|average: Seq<u64>, distances: Seq<u64>|
        {
            &&& #[trigger] is_trajectory(average, y, d, n_pre, mean)
            &&& #[trigger] distances.len() == y.cols
            &&& forall|i: usize|
                i < y.cols ==> deviates(
                    #[trigger] distances[i as int],
                    y,
                    average,
                    n_pre,
                    i,
                    rms,
                ) && gives_kernel(
                    v.1@[i as int],
                    joint_kernel(n_pre, distances[i as int]),
                    lambda_unit,
                    unit_decay,
                )
        };
    let distance = distances[i as int];
    assert(deviates(distance, y, average, n_pre, i, rms));
    let periods = choose|periods: Seq<usize>|
        {
            &&& #[trigger] lists_overlap(periods, y, average, n_pre, i)
            &&& if periods.len() == 0 {
                distance == bits::INFINITY
            } else {
                exists|pairs: Vec<(u64, u64)>|
                    pairs@ == Seq::new(
                        periods.len(),
                        |k: int| (average[periods[k] as int], y.at(periods[k] as int, i as int)),
                    ) && #[trigger] call_ensures(rms, (&pairs,), distance)
            }
        };
    if periods.len() > 0 {
        let t = periods[0];
        assert(t < n_pre && bits::finite(y.at(t as int, i as int)));
    }
}

/// Where no period precedes treatment, every unit has a joint weight of one.
pub proof fn law_units_weigh_alike_without_earlier_periods<
    A: Fn(&Vec<u64>) -> u64,
    R: Fn(&Vec<(u64, u64)>) -> u64,
    T: Fn(u64, u128) -> u64,
    U: Fn(u64, u64) -> u64,
>(
    v: (Vec<u64>, Vec<u64>),
    y: &Matrix<u64>,
    d: &Matrix<u64>,
    lambda_time: u64,
    lambda_unit: u64,
    treated_periods: usize,
    mean: A,
    rms: R,
    time_decay: T,
    unit_decay: U,
    i: usize,
)
    requires
        weighs_jointly(
            v,
            y,
            d,
            lambda_time,
            lambda_unit,
            treated_periods,
            mean,
            rms,
            time_decay,
            unit_decay,
        ),
        i < y.cols,
        pre_periods(y.rows, treated_periods) == 0,
    ensures
        v.1@[i as int] == bits::ONE,
{
    let n_pre = pre_periods(y.rows, treated_periods);
    let (average, distances) = choose|average: Seq<u64>, distances: Seq<u64>|
        {
            &&& #[trigger] is_trajectory(average, y, d, n_pre, mean)
            &&& #[trigger] distances.len() == y.cols
            &&& forall|i: usize|
                i < y.cols ==> deviates(
                    #[trigger] distances[i as int],
                    y,
                    average,
                    n_pre,
                    i,
                    rms,
                ) && gives_kernel(
                    v.1@[i as int],
                    joint_kernel(n_pre, distances[i as int]),
                    lambda_unit,
                    unit_decay,
                )
        };
    assert(deviates(distances[i as int], y, average, n_pre, i, rms));
}

/// Outcomes from the first treated period on do not enter the joint weights:
/// panels that agree before it have the same weights.
pub proof fn law_later_outcomes_do_not_weigh<
    A: Fn(&Vec<u64>) -> u64,
    R: Fn(&Vec<(u64, u64)>) -> u64,
    T: Fn(u64, u128) -> u64,
    U: Fn(u64, u64) -> u64,
    C: Fn(u64, u64, u64) -> u64,
>(
    w: &Matrix<u64>,
    a: &Matrix<u64>,
    b: &Matrix<u64>,
    d: &Matrix<u64>,
    lambda_time: u64,
    lambda_unit: u64,
    treated_periods: usize,
    mean: A,
    rms: R,
    time_decay: T,
    unit_decay: U,
    combine: C,
)
    requires
        agree_before(a, b, pre_periods(a.rows, treated_periods)),
    ensures
        weighs_cells_jointly(
            w,
            a,
            d,
            lambda_time,
            lambda_unit,
            treated_periods,
            mean,
            rms,
            time_decay,
            unit_decay,
            combine,
        ) == weighs_cells_jointly(
            w,
            b,
            d,
            lambda_time,
            lambda_unit,
            treated_periods,
            mean,
            rms,
            time_decay,
            unit_decay,
            combine,
        ),
{
    assert(agree_before(b, a, pre_periods(b.rows, treated_periods))) by {
        assert forall|t: int, i: int|
            0 <= t < pre_periods(b.rows, treated_periods) && 0 <= i < b.cols implies
        #[trigger] b.at(t, i) == a.at(t, i) by {
            assert(a.at(t, i) == b.at(t, i));
        }
    }
    if weighs_cells_jointly(
        w,
        a,
        d,
        lambda_time,
        lambda_unit,
        treated_periods,
        mean,
        rms,
        time_decay,
        unit_decay,
        combine,
    ) {
        let r = choose|r: (Vec<u64>, Vec<u64>)| #[trigger]
            weighs_jointly(
                r,
                a,
                d,
                lambda_time,
                lambda_unit,
                treated_periods,
                mean,
                rms,
                time_decay,
                unit_decay,
            ) && combines(w, r.0@, r.1@, d, combine);
        lemma_weighs_before(
            r,
            a,
            b,
            d,
            lambda_time,
            lambda_unit,
            treated_periods,
            mean,
            rms,
            time_decay,
            unit_decay,
        );
    }
    if weighs_cells_jointly(
        w,
        b,
        d,
        lambda_time,
        lambda_unit,
        treated_periods,
        mean,
        rms,
        time_decay,
        unit_decay,
        combine,
    ) {
        let r = choose|r: (Vec<u64>, Vec<u64>)| #[trigger]
            weighs_jointly(
                r,
                b,
                d,
                lambda_time,
                lambda_unit,
                treated_periods,
                mean,
                rms,
                time_decay,
                unit_decay,
            ) && combines(w, r.0@, r.1@, d, combine);
        lemma_weighs_before(
            r,
            b,
            a,
            d,
            lambda_time,
            lambda_unit,
            treated_periods,
            mean,
            rms,
            time_decay,
            unit_decay,
        );
    }
}

/// A unit is at distance zero from itself; two units are infinitely far where no
/// period is marked for both, and otherwise at the root mean square over the
/// values of both in every such period, but the one left out, and in no other.
pub proof fn law_distance_of_two_units<R: Fn(&Vec<(u64, u64)>) -> u64>(
    r: u64,
    cache: &UnitDistanceCache,
    i: usize,
    j: usize,
    exclude: Option<usize>,
    rms: R,
)
    requires
        distance_of(r, cache, i, j, exclude, rms),
    ensures
        i == j ==> r == bits::ZERO,
        i != j ==> (r == bits::INFINITY && forall|t: usize|
            #![trigger cache.valid.at(t as int, i as int)]
            t < cache.valid.rows && exclude != Some(t) ==> !(cache.valid.at(t as int, i as int)
                && cache.valid.at(t as int, j as int))) || exists|
            periods: Vec<usize>,
            pairs: Vec<(u64, u64)>,
        |
            {
                &&& #[trigger] periods@.len() == #[trigger] pairs@.len()
                &&& periods@.len() > 0
                &&& forall|t: usize|
                    #![trigger periods@.contains(t)]
                    periods@.contains(t) <==> t < cache.valid.rows && exclude != Some(t)
                        && cache.valid.at(t as int, i as int) && cache.valid.at(t as int, j as int)
                &&& forall|a: int, b: int|
                    0 <= a < b < periods@.len() ==> #[trigger] periods@[a] < #[trigger] periods@[b]
                &&& forall|k: int|
                    0 <= k < periods@.len() ==> (#[trigger] pairs@[k]).0 == cache.y.at(
                        periods@[k] as int,
                        i as int,
                    ) && pairs@[k].1 == cache.y.at(periods@[k] as int, j as int)
                &&& call_ensures(rms, (&pairs,), r)
            },
{
    let s = choose|s: Separation| #[trigger]
        cache.separated(s, i, j, exclude) && gives_distance(r, &cache.y, i, j, s, rms);
    if i != j {
        let p = |t: int|
            exclude != Some(t as usize) && cache.valid.at(t, i as int) && cache.valid.at(
                t,
                j as int,
            );
        match s {
            Separation::Unreachable => {
                assert forall|t: usize|
                    #![trigger cache.valid.at(t as int, i as int)]
                    t < cache.valid.rows && exclude != Some(t) implies !(cache.valid.at(
                    t as int,
                    i as int,
                ) && cache.valid.at(t as int, j as int)) by {
                    assert(!p(t as int));
                }
            },
            Separation::Periods(periods) => {
                let pairs = choose|pairs: Vec<(u64, u64)>|
                    pairs@ == paired(&cache.y, i, j, periods@) && #[trigger] call_ensures(
                        rms,
                        (&pairs,),
                        r,
                    );
                assert forall|t: usize|
                    #![trigger periods@.contains(t)]
                    periods@.contains(t) <==> t < cache.valid.rows && exclude != Some(t)
                        && cache.valid.at(t as int, i as int) && cache.valid.at(
                        t as int,
                        j as int,
                    ) by {
                    if periods@.contains(t) {
                        let k = choose|k: int| 0 <= k < periods@.len() && periods@[k] == t;
                        assert(periods@[k] < cache.valid.rows && p(periods@[k] as int));
                    } else if t < cache.valid.rows {
                        assert(!p(t as int));
                    }
                }
                assert(periods@.len() == pairs@.len());
            },
            Separation::Zero => {},
        }
    }
}

/// The distance that is computed for two units is theirs, and a table holds that
/// of every pair.
pub proof fn law_distances_computed<R: Fn(&Vec<(u64, u64)>) -> u64>(
    y: &Matrix<u64>,
    d: &Matrix<u64>,
    cache: &UnitDistanceCache,
    i: usize,
    j: usize,
    exclude: Option<usize>,
    rms: &R,
    r: u64,
    table: Matrix<u64>,
    a: usize,
    b: usize,
)
    requires
        call_ensures(compute_pair_distance::<R>, (cache, i, j, exclude, rms), r),
        call_ensures(compute_unit_distance_matrix_internal::<R>, (y, d, rms), table),
        a < b < y.cols,
    ensures
        distance_of(r, cache, i, j, exclude, *rms),
        table.rows == y.cols && table.cols == y.cols,
        table.at(a as int, a as int) == bits::ZERO,
        table.at(b as int, b as int) == bits::ZERO,
        table.at(b as int, a as int) == table.at(a as int, b as int),
        exists|whole: UnitDistanceCache| #[trigger]
            whole.caches(y, d) && distance_of(
                table.at(a as int, b as int),
                &whole,
                a,
                b,
                None,
                *rms,
            ),
{
    let (whole, upper) = choose|whole: UnitDistanceCache, upper: Seq<Vec<u64>>|
        whole.caches(y, d) && #[trigger] tabulates(&table, &whole, upper, *rms);
    law_table_holds_distances(&table, &whole, upper, *rms, a, b);
    assert(mirrored(upper, b as int, b as int) == bits::ZERO);
}

/// The weight of a period centred on a cell decays with its distance from the
/// period of the cell.  The unit of the cell weighs one, and so does every unit
/// under a zero bandwidth; any other decays with its distance from that unit, and
/// weighs nothing where that is not finite.
pub proof fn law_weights_centred_on_a_cell<
    R: Fn(&Vec<(u64, u64)>) -> u64,
    T: Fn(u64, i64) -> u64,
    U: Fn(u64, u64) -> u64,
>(
    cache: &UnitDistanceCache,
    target_unit: usize,
    target_period: usize,
    lambda_time: u64,
    lambda_unit: u64,
    time_dist: &Matrix<i64>,
    rms: &R,
    time_decay: &T,
    unit_decay: &U,
    r: (Vec<u64>, Vec<u64>),
    s: usize,
    j: usize,
)
    requires
        call_ensures(
            compute_twostep_weight_vectors_cached::<R, T, U>,
            (
                cache,
                target_unit,
                target_period,
                lambda_time,
                lambda_unit,
                time_dist,
                rms,
                time_decay,
                unit_decay,
            ),
            r,
        ),
        s < cache.y.rows,
        j < cache.y.cols,
    ensures
        r.0@.len() == cache.y.rows,
        r.1@.len() == cache.y.cols,
        call_ensures(
            *time_decay,
            (lambda_time, time_dist.at(target_period as int, s as int)),
            r.0@[s as int],
        ),
        j == target_unit ==> r.1@[j as int] == bits::ONE,
        bits::zero(lambda_unit) ==> r.1@[j as int] == bits::ONE,
        j != target_unit && !bits::zero(lambda_unit) ==> exists|distance: u64|
            {
                &&& #[trigger] distance_of(
                    distance,
                    cache,
                    j,
                    target_unit,
                    Some(target_period),
                    *rms,
                )
                &&& bits::finite(distance) ==> call_ensures(
                    *unit_decay,
                    (lambda_unit, distance),
                    r.1@[j as int],
                )
                &&& !bits::finite(distance) ==> r.1@[j as int] == bits::ZERO
            },
{
    assert(weighs_unit(
        r.1@[j as int],
        cache,
        j,
        target_unit,
        target_period,
        lambda_unit,
        *rms,
        *unit_decay,
    ));
    assert(r.0@[s as int] == r.0@[s as int]);
    if j != target_unit && !bits::zero(lambda_unit) {
        let distance = choose|distance: u64| #[trigger]
            distance_of(distance, cache, j, target_unit, Some(target_period), *rms)
                && gives_kernel(
                r.1@[j as int],
                twostep_kernel(lambda_unit, target_unit, j as int, distance),
                lambda_unit,
                *unit_decay,
            );
        assert(distance_of(distance, cache, j, target_unit, Some(target_period), *rms));
    }
}

/// Every cell weighs the product of the weights of its period and of its unit.
pub proof fn law_cells_weigh_products<P: Fn(u64, u64) -> u64>(
    time: &Vec<u64>,
    unit: &Vec<u64>,
    multiply: &P,
    r: Matrix<u64>,
    t: usize,
    i: usize,
)
    requires
        call_ensures(weight_product::<P>, (time, unit, multiply), r),
        t < time@.len(),
        i < unit@.len(),
    ensures
        r.rows == time@.len(),
        r.cols == unit@.len(),
        call_ensures(*multiply, (time@[t as int], unit@[i as int]), r.at(t as int, i as int)),
{
}

/// The weights of all cells centred on a cell are products of the weights that
/// are centred on it.
pub proof fn law_weight_table<
    R: Fn(&Vec<(u64, u64)>) -> u64,
    T: Fn(u64, i64) -> u64,
    U: Fn(u64, u64) -> u64,
    P: Fn(u64, u64) -> u64,
>(
    cache: &UnitDistanceCache,
    target_unit: usize,
    target_period: usize,
    lambda_time: u64,
    lambda_unit: u64,
    time_dist: &Matrix<i64>,
    rms: &R,
    time_decay: &T,
    unit_decay: &U,
    multiply: &P,
    r: Matrix<u64>,
)
    requires
        call_ensures(
            compute_weight_matrix_cached::<R, T, U, P>,
            (
                cache,
                target_unit,
                target_period,
                lambda_time,
                lambda_unit,
                time_dist,
                rms,
                time_decay,
                unit_decay,
                multiply,
            ),
            r,
        ),
    ensures
        r.rows == cache.y.rows,
        r.cols == cache.y.cols,
        exists|vectors: (Vec<u64>, Vec<u64>)|
            {
                &&& #[trigger] weighs_cell(
                    vectors,
                    cache,
                    target_unit,
                    target_period,
                    lambda_time,
                    lambda_unit,
                    time_dist,
                    *rms,
                    *time_decay,
                    *unit_decay,
                )
                &&& forall|t: usize, i: usize|
                    t < r.rows && i < r.cols ==> call_ensures(
                        *multiply,
                        (vectors.0@[t as int], vectors.1@[i as int]),
                        #[trigger] r.at(t as int, i as int),
                    )
            },
{
}

/// In the joint weights a period decays with twice its distance from the middle of
/// the treated block, `T - T_post / 2`, whatever the length of the panel.
pub proof fn law_joint_period_weights<
    A: Fn(&Vec<u64>) -> u64,
    R: Fn(&Vec<(u64, u64)>) -> u64,
    T: Fn(u64, u128) -> u64,
    U: Fn(u64, u64) -> u64,
>(
    y: &Matrix<u64>,
    d: &Matrix<u64>,
    lambda_time: u64,
    lambda_unit: u64,
    treated_periods: usize,
    mean: &A,
    rms: &R,
    time_decay: &T,
    unit_decay: &U,
    r: (Vec<u64>, Vec<u64>),
    t: usize,
    distance: u128,
)
    requires
        call_ensures(
            compute_joint_weight_vectors::<A, R, T, U>,
            (
                y,
                d,
                lambda_time,
                lambda_unit,
                treated_periods,
                mean,
                rms,
                time_decay,
                unit_decay,
            ),
            r,
        ),
        t < y.rows,
        2 * t + treated_periods >= 2 * y.rows ==> distance + 2 * y.rows == 2 * t
            + treated_periods,
        2 * t + treated_periods <= 2 * y.rows ==> distance + 2 * t + treated_periods == 2 * y.rows,
    ensures
        r.0@.len() == y.rows,
        call_ensures(*time_decay, (lambda_time, distance), r.0@[t as int]),
{
    assert(r.0@[t as int] == r.0@[t as int]);
}

/// In the joint weights every unit weighs one where nothing precedes treatment.
/// Otherwise the average of the treated units is taken in every earlier period over
/// those observed, and a unit decays with the root mean square of its differences
/// from it over every earlier period in which both are finite; where there is
/// none it weighs nothing.
pub proof fn law_joint_unit_weights<
    A: Fn(&Vec<u64>) -> u64,
    R: Fn(&Vec<(u64, u64)>) -> u64,
    T: Fn(u64, u128) -> u64,
    U: Fn(u64, u64) -> u64,
>(
    y: &Matrix<u64>,
    d: &Matrix<u64>,
    lambda_time: u64,
    lambda_unit: u64,
    treated_periods: usize,
    mean: &A,
    rms: &R,
    time_decay: &T,
    unit_decay: &U,
    r: (Vec<u64>, Vec<u64>),
    n_pre: usize,
    i: usize,
)
    requires
        call_ensures(
            compute_joint_weight_vectors::<A, R, T, U>,
            (
                y,
                d,
                lambda_time,
                lambda_unit,
                treated_periods,
                mean,
                rms,
                time_decay,
                unit_decay,
            ),
            r,
        ),
        call_ensures(pre_period_count, (y.rows, treated_periods), n_pre),
        i < y.cols,
    ensures
        r.1@.len() == y.cols,
        n_pre == 0 ==> r.1@[i as int] == bits::ONE,
        n_pre > 0 ==> exists|average: Seq<u64>, distance: u64|
            {
                &&& average.len() == y.rows
                &&& #[trigger] is_trajectory(average, y, d, n_pre, *mean)
                &&& #[trigger] deviates(distance, y, average, n_pre, i, *rms)
                &&& bits::infinite(distance) ==> r.1@[i as int] == bits::ZERO
                &&& !bits::infinite(distance) ==> call_ensures(
                    *unit_decay,
                    (lambda_unit, distance),
                    r.1@[i as int],
                )
            },
{
    let (average, distances) = choose|average: Seq<u64>, distances: Seq<u64>|
        {
            &&& #[trigger] is_trajectory(average, y, d, n_pre, *mean)
            &&& #[trigger] distances.len() == y.cols
            &&& forall|i: usize|
                i < y.cols ==> deviates(
                    #[trigger] distances[i as int],
                    y,
                    average,
                    n_pre,
                    i,
                    *rms,
                ) && gives_kernel(
                    r.1@[i as int],
                    joint_kernel(n_pre, distances[i as int]),
                    lambda_unit,
                    *unit_decay,
                )
        };
    assert(deviates(distances[i as int], y, average, n_pre, i, *rms));
}

/// The trajectory in a period is the mean of the outcomes of every unit that is
/// treated at some time and observed in the period, and undefined where there is
/// none.
pub proof fn law_trajectory_is_a_mean<A: Fn(&Vec<u64>) -> u64>(
    average: Seq<u64>,
    y: &Matrix<u64>,
    d: &Matrix<u64>,
    n_pre: usize,
    mean: A,
    t: usize,
    units: Vec<usize>,
)
    requires
        is_trajectory(average, y, d, n_pre, mean),
        t < n_pre,
        call_ensures(trajectory_units, (y, d, t), units),
    ensures
        units@.len() == 0 ==> average[t as int] == bits::NAN,
        units@.len() > 0 ==> exists|values: Vec<u64>|
            {
                &&& values@.len() == units@.len()
                &&& forall|k: int|
                    0 <= k < units@.len() ==> #[trigger] values@[k] == y.at(
                        t as int,
                        units@[k] as int,
                    )
                &&& #[trigger] call_ensures(mean, (&values,), average[t as int])
            },
{
    assert(averages_period(average[t as int], y, d, t, mean));
    let others = choose|others: Seq<usize>|
        {
            &&& #[trigger] lists_trajectory(others, y, d, t)
            &&& if others.len() == 0 {
                average[t as int] == bits::NAN
            } else {
                exists|values: Vec<u64>|
                    values@ == Seq::new(others.len(), |k: int| y.at(t as int, others[k] as int))
                        && #[trigger] call_ensures(mean, (&values,), average[t as int])
            }
        };
    crate::determined::lemma_one_listing(
        others,
        units@,
        y.cols as int,
        |i: int| ever_treated(d, i) && bits::finite(y.at(t as int, i)),
    );
}

/// A unit deviates from the trajectory by the root mean square over the pairs of
/// trajectory and outcome in every period in which both are finite, infinitely
/// where there is none.
pub proof fn law_deviation_takes_every_period<R: Fn(&Vec<(u64, u64)>) -> u64>(
    v: u64,
    y: &Matrix<u64>,
    average: &Vec<u64>,
    n_pre: usize,
    i: usize,
    rms: R,
    periods: Vec<usize>,
)
    requires
        deviates(v, y, average@, n_pre, i, rms),
        call_ensures(overlap_periods, (y, average, n_pre, i), periods),
    ensures
        periods@.len() == 0 ==> v == bits::INFINITY,
        periods@.len() > 0 ==> exists|pairs: Vec<(u64, u64)>|
            {
                &&& pairs@.len() == periods@.len()
                &&& forall|k: int|
                    0 <= k < periods@.len() ==> (#[trigger] pairs@[k]).0
                        == average@[periods@[k] as int] && pairs@[k].1 == y.at(
                        periods@[k] as int,
                        i as int,
                    )
                &&& #[trigger] call_ensures(rms, (&pairs,), v)
            },
{
    let others = choose|others: Seq<usize>|
        {
            &&& #[trigger] lists_overlap(others, y, average@, n_pre, i)
            &&& if others.len() == 0 {
                v == bits::INFINITY
            } else {
                exists|pairs: Vec<(u64, u64)>|
                    pairs@ == Seq::new(
                        others.len(),
                        |k: int| (average@[others[k] as int], y.at(others[k] as int, i as int)),
                    ) && #[trigger] call_ensures(rms, (&pairs,), v)
            }
        };
    crate::determined::lemma_one_listing(
        others,
        periods@,
        n_pre as int,
        |t: int| bits::finite(y.at(t, i as int)) && bits::finite(average@[t]),
    );
}

/// The joint weight of every cell combines the weight of its period, that of its
/// unit and its treatment.
pub proof fn law_joint_weight_table<
    A: Fn(&Vec<u64>) -> u64,
    R: Fn(&Vec<(u64, u64)>) -> u64,
    T: Fn(u64, u128) -> u64,
    U: Fn(u64, u64) -> u64,
    C: Fn(u64, u64, u64) -> u64,
>(
    y: &Matrix<u64>,
    d: &Matrix<u64>,
    lambda_time: u64,
    lambda_unit: u64,
    treated_periods: usize,
    mean: &A,
    rms: &R,
    time_decay: &T,
    unit_decay: &U,
    combine: &C,
    r: Matrix<u64>,
)
    requires
        call_ensures(
            compute_joint_weights::<A, R, T, U, C>,
            (
                y,
                d,
                lambda_time,
                lambda_unit,
                treated_periods,
                mean,
                rms,
                time_decay,
                unit_decay,
                combine,
            ),
            r,
        ),
    ensures
        r.rows == d.rows,
        r.cols == d.cols,
        exists|vectors: (Vec<u64>, Vec<u64>)|
            {
                &&& #[trigger] weighs_jointly(
                    vectors,
                    y,
                    d,
                    lambda_time,
                    lambda_unit,
                    treated_periods,
                    *mean,
                    *rms,
                    *time_decay,
                    *unit_decay,
                )
                &&& forall|t: usize, i: usize|
                    t < d.rows && i < d.cols ==> call_ensures(
                        *combine,
                        (vectors.0@[t as int], vectors.1@[i as int], d.at(t as int, i as int)),
                        #[trigger] r.at(t as int, i as int),
                    )
            },
{
}

/// A unit kernel is one, zero, or the decay of its distance.
pub proof fn law_kernel_values<U: Fn(u64, u64) -> u64>(
    kernel: UnitKernel,
    bandwidth: u64,
    decay: &U,
    r: u64,
)
    requires
        call_ensures(kernel_value::<U>, (kernel, bandwidth, decay), r),
    ensures
        kernel == UnitKernel::One ==> r == bits::ONE,
        kernel == UnitKernel::Zero ==> r == bits::ZERO,
        kernel matches UnitKernel::Decay(distance) ==> call_ensures(
            *decay,
            (bandwidth, distance),
            r,
        ),
{
}

} // verus!

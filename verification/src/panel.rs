//! Treatment status of the cells and units of a panel.
//!
//! Outcomes and treatment indicators are tables of binary64 encodings with one
//! row per period and one column per unit.  A cell is treated where the
//! indicator equals one.
use crate::bits;
use crate::matrix::{lists_cells, true_cells, Matrix};
use vstd::prelude::*;

verus! {

/// Cell `(t, i)` is treated.
pub open spec fn treated(d: &Matrix<u64>, t: int, i: int) -> bool {
    bits::same(d.at(t, i), bits::ONE)
}

/// Cell `(t, i)` is untreated: its indicator is zero.
pub open spec fn untreated(d: &Matrix<u64>, t: int, i: int) -> bool {
    bits::zero(d.at(t, i))
}

/// Unit `i` is treated in some period.
pub open spec fn ever_treated(d: &Matrix<u64>, i: int) -> bool {
    exists|t: int| 0 <= t < d.rows && #[trigger] treated(d, t, i)
}

/// Unit `i` is untreated in every period.
pub open spec fn never_treated(d: &Matrix<u64>, i: int) -> bool {
    forall|t: int| 0 <= t < d.rows ==> #[trigger] untreated(d, t, i)
}

/// Some unit is treated in period `t`.
pub open spec fn treated_row(d: &Matrix<u64>, t: int) -> bool {
    exists|i: int| 0 <= i < d.cols && #[trigger] treated(d, t, i)
}

/// Some cell is treated.
pub open spec fn any_treated(d: &Matrix<u64>) -> bool {
    exists|t: int| 0 <= t < d.rows && #[trigger] treated_row(d, t)
}

/// Cell `(t, i)` is treated and its outcome is finite.
pub open spec fn observed_treated(y: &Matrix<u64>, d: &Matrix<u64>, t: int, i: int) -> bool {
    treated(d, t, i) && bits::finite(y.at(t, i))
}

/// Cell `(t, i)` is untreated and its outcome is finite.
pub open spec fn observed_untreated(y: &Matrix<u64>, d: &Matrix<u64>, t: int, i: int) -> bool {
    untreated(d, t, i) && bits::finite(y.at(t, i))
}

/// The two tables have the same shape.
pub open spec fn same_shape<A: Copy, B: Copy>(a: &Matrix<A>, b: &Matrix<B>) -> bool {
    a.wf() && b.wf() && a.rows == b.rows && a.cols == b.cols
}

/// Whether cell `(t, i)` is treated.
pub fn is_treated(d: &Matrix<u64>, t: usize, i: usize) -> (r: bool)
    requires
        d.wf(),
        t < d.rows,
        i < d.cols,
    ensures
        r == treated(d, t as int, i as int),
{
    bits::equal(d.get(t, i), bits::ONE)
}

/// Whether cell `(t, i)` is untreated.
pub fn is_untreated(d: &Matrix<u64>, t: usize, i: usize) -> (r: bool)
    requires
        d.wf(),
        t < d.rows,
        i < d.cols,
    ensures
        r == untreated(d, t as int, i as int),
{
    bits::is_zero(d.get(t, i))
}

/// Whether unit `i` is treated in some period.
pub fn is_ever_treated(d: &Matrix<u64>, i: usize) -> (r: bool)
    requires
        d.wf(),
        i < d.cols,
    ensures
        r == ever_treated(d, i as int),
{
    let mut t: usize = 0;
    while t < d.rows
        invariant
            d.wf(),
            i < d.cols,
            t <= d.rows,
            forall|s: int| 0 <= s < t ==> !#[trigger] treated(d, s, i as int),
        decreases d.rows - t,
    {
        if is_treated(d, t, i) {
            return true;
        }
        t = t + 1;
    }
    false
}

/// Whether unit `i` is untreated in every period.
pub fn is_never_treated(d: &Matrix<u64>, i: usize) -> (r: bool)
    requires
        d.wf(),
        i < d.cols,
    ensures
        r == never_treated(d, i as int),
{
    let mut t: usize = 0;
    while t < d.rows
        invariant
            d.wf(),
            i < d.cols,
            t <= d.rows,
            forall|s: int| 0 <= s < t ==> #[trigger] untreated(d, s, i as int),
        decreases d.rows - t,
    {
        if !is_untreated(d, t, i) {
            return false;
        }
        t = t + 1;
    }
    true
}

/// Treated cells, by period and within a period by unit.
pub fn treated_cells(d: &Matrix<u64>) -> (r: Vec<(usize, usize)>)
    requires
        d.wf(),
    ensures
        lists_cells(r@, d.rows as int, d.cols as int, |t: int, i: int| treated(d, t, i)),
{
    assert(d.data.len() == d.rows * d.cols);
    let f = |t: usize, i: usize| -> (b: bool)
        requires
            d.has(t, i),
        ensures
            b == treated(d, t as int, i as int),
    { is_treated(d, t, i) };
    let mask: Matrix<bool> = Matrix::build(d.rows, d.cols, f);
    let r: Vec<(usize, usize)> = true_cells(&mask);
    proof {
        crate::matrix::lemma_same_listing(
            r@,
            d.rows as int,
            d.cols as int,
            |t: int, i: int| mask.at(t, i),
            |t: int, i: int| treated(d, t, i),
        );
    }
    r
}

/// Treated cells with a finite outcome, by period and within a period by unit.
pub fn observed_treated_cells(y: &Matrix<u64>, d: &Matrix<u64>) -> (r: Vec<(usize, usize)>)
    requires
        same_shape(y, d),
    ensures
        lists_cells(
            r@,
            d.rows as int,
            d.cols as int,
            |t: int, i: int| observed_treated(y, d, t, i),
        ),
{
    assert(d.data.len() == d.rows * d.cols);
    let f = |t: usize, i: usize| -> (b: bool)
        requires
            same_shape(y, d),
            d.has(t, i),
        ensures
            b == observed_treated(y, d, t as int, i as int),
    { is_treated(d, t, i) && bits::is_finite(y.get(t, i)) };
    let mask: Matrix<bool> = Matrix::build(d.rows, d.cols, f);
    let r: Vec<(usize, usize)> = true_cells(&mask);
    proof {
        crate::matrix::lemma_same_listing(
            r@,
            d.rows as int,
            d.cols as int,
            |t: int, i: int| mask.at(t, i),
            |t: int, i: int| observed_treated(y, d, t, i),
        );
    }
    r
}

/// First period with a treated cell; the number of periods where there is none.
pub fn first_treated_period(d: &Matrix<u64>) -> (r: usize)
    requires
        d.wf(),
    ensures
        r <= d.rows,
        forall|t: int| 0 <= t < r ==> !#[trigger] treated_row(d, t),
        r < d.rows ==> treated_row(d, r as int),
        r < d.rows <==> any_treated(d),
{
    let mut t: usize = 0;
    while t < d.rows
        invariant
            d.wf(),
            t <= d.rows,
            forall|s: int| 0 <= s < t ==> !#[trigger] treated_row(d, s),
        decreases d.rows - t,
    {
        let mut i: usize = 0;
        while i < d.cols
            invariant
                d.wf(),
                t < d.rows,
                i <= d.cols,
                forall|s: int| 0 <= s < t ==> !#[trigger] treated_row(d, s),
                forall|j: int| 0 <= j < i ==> !#[trigger] treated(d, t as int, j),
            decreases d.cols - i,
        {
            if is_treated(d, t, i) {
                assert(treated(d, t as int, i as int));
                assert(treated_row(d, t as int));
                return t;
            }
            i = i + 1;
        }
        assert(!treated_row(d, t as int));
        t = t + 1;
    }
    t
}

/// A cell counts as treated where its indicator is one, as untreated where it is
/// zero of either sign.
pub proof fn law_treatment_status(
    d: &Matrix<u64>,
    t: usize,
    i: usize,
    is_one: bool,
    is_none: bool,
)
    requires
        call_ensures(is_treated, (d, t, i), is_one),
        call_ensures(is_untreated, (d, t, i), is_none),
    ensures
        is_one <==> d.at(t as int, i as int) == 0x3FF0_0000_0000_0000,
        is_none <==> d.at(t as int, i as int) == 0 || d.at(t as int, i as int)
            == 0x8000_0000_0000_0000,
{
}

/// A unit counts as treated where its indicator is one in any period, and as
/// never treated where it is zero in every period.
pub proof fn law_unit_status(d: &Matrix<u64>, i: usize, at_some_time: bool, at_no_time: bool)
    requires
        call_ensures(is_ever_treated, (d, i), at_some_time),
        call_ensures(is_never_treated, (d, i), at_no_time),
    ensures
        at_some_time <==> exists|t: int|
            0 <= t < d.rows && bits::same(#[trigger] d.at(t, i as int), bits::ONE),
        at_no_time <==> forall|t: int|
            0 <= t < d.rows ==> bits::zero(#[trigger] d.at(t, i as int)),
{
    if exists|t: int| 0 <= t < d.rows && bits::same(#[trigger] d.at(t, i as int), bits::ONE) {
        let t = choose|t: int|
            0 <= t < d.rows && bits::same(#[trigger] d.at(t, i as int), bits::ONE);
        assert(treated(d, t, i as int));
    }
    if at_some_time {
        let t = choose|t: int| 0 <= t < d.rows && #[trigger] treated(d, t, i as int);
        assert(bits::same(d.at(t, i as int), bits::ONE));
    }
    if at_no_time {
        assert forall|t: int| 0 <= t < d.rows implies bits::zero(#[trigger] d.at(t, i as int)) by {
            assert(untreated(d, t, i as int));
        }
    }
}

/// The treated cells are exactly those whose indicator is one.
pub proof fn law_every_treated_cell_is_listed(d: &Matrix<u64>, r: Vec<(usize, usize)>)
    requires
        call_ensures(treated_cells, (d,), r),
    ensures
        forall|t: usize, i: usize|
            #![trigger r@.contains((t, i))]
            r@.contains((t, i)) <==> t < d.rows && i < d.cols && bits::same(
                d.at(t as int, i as int),
                bits::ONE,
            ),
        r@.no_duplicates(),
{
    assert forall|t: usize, i: usize|
        #![trigger r@.contains((t, i))]
        r@.contains((t, i)) <==> t < d.rows && i < d.cols && bits::same(
            d.at(t as int, i as int),
            bits::ONE,
        ) by {
        if r@.contains((t, i)) {
            let k = choose|k: int| 0 <= k < r@.len() && r@[k] == (t, i);
            assert(r@[k].0 < d.rows && treated(d, r@[k].0 as int, r@[k].1 as int));
        }
    }
}

/// The treated cells of the joint method are exactly those whose indicator is one
/// and whose outcome is finite.
pub proof fn law_every_observed_treated_cell_is_listed(
    y: &Matrix<u64>,
    d: &Matrix<u64>,
    r: Vec<(usize, usize)>,
)
    requires
        call_ensures(observed_treated_cells, (y, d), r),
    ensures
        forall|t: usize, i: usize|
            #![trigger r@.contains((t, i))]
            r@.contains((t, i)) <==> t < d.rows && i < d.cols && bits::same(
                d.at(t as int, i as int),
                bits::ONE,
            ) && bits::finite(y.at(t as int, i as int)),
        r@.no_duplicates(),
{
    assert forall|t: usize, i: usize|
        #![trigger r@.contains((t, i))]
        r@.contains((t, i)) <==> t < d.rows && i < d.cols && bits::same(
            d.at(t as int, i as int),
            bits::ONE,
        ) && bits::finite(y.at(t as int, i as int)) by {
        if r@.contains((t, i)) {
            let k = choose|k: int| 0 <= k < r@.len() && r@[k] == (t, i);
            assert(r@[k].0 < d.rows && observed_treated(y, d, r@[k].0 as int, r@[k].1 as int));
        }
    }
}

/// No cell is treated before the first treated period, and one is in it; there is
/// none exactly where no cell is treated at all.
pub proof fn law_first_treated_period(d: &Matrix<u64>, r: usize)
    requires
        call_ensures(first_treated_period, (d,), r),
    ensures
        forall|t: int, i: int|
            0 <= t < r && 0 <= i < d.cols ==> !bits::same(#[trigger] d.at(t, i), bits::ONE),
        r < d.rows ==> exists|i: int|
            0 <= i < d.cols && bits::same(#[trigger] d.at(r as int, i), bits::ONE),
        r <= d.rows,
{
    assert forall|t: int, i: int| 0 <= t < r && 0 <= i < d.cols implies !bits::same(
        #[trigger] d.at(t, i),
        bits::ONE,
    ) by {
        assert(!treated_row(d, t));
        assert(!treated(d, t, i));
    }
    if r < d.rows {
        let i = choose|i: int| 0 <= i < d.cols && #[trigger] treated(d, r as int, i);
        assert(bits::same(d.at(r as int, i), bits::ONE));
    }
}

} // verus!

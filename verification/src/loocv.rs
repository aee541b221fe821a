//! Leave-one-out cross-validation over the control cells of a panel.
use crate::bits;
use crate::error::{TropError, TropResult};
use crate::matrix::{lists_cells, true_cells, Matrix};
use crate::panel::{
    any_treated, ever_treated, first_treated_period, is_ever_treated, is_treated, is_untreated,
    same_shape, treated, treated_row, untreated,
};
use vstd::prelude::*;

verus! {

/// Cell `(t, i)` enters the criterion: it is marked as control and its outcome
/// is finite.
pub open spec fn control_cell(
    y: &Matrix<u64>,
    control_mask: &Matrix<u8>,
    t: int,
    i: int,
) -> bool {
    control_mask.at(t, i) != 0 && bits::finite(y.at(t, i))
}

/// `cells` are all cells that enter the criterion, by period and within a
/// period by unit.
pub open spec fn lists_controls(
    cells: Seq<(usize, usize)>,
    y: &Matrix<u64>,
    control_mask: &Matrix<u8>,
) -> bool {
    lists_cells(
        cells,
        y.rows as int,
        y.cols as int,
        |t: int, i: int| control_cell(y, control_mask, t, i),
    )
}

/// All cells that enter the criterion, by period and within a period by unit.
pub fn get_control_observations(y: &Matrix<u64>, control_mask: &Matrix<u8>) -> (r: Vec<
    (usize, usize),
>)
    requires
        same_shape(y, control_mask),
    ensures
        lists_controls(r@, y, control_mask),
{
    assert(y.data.len() == y.rows * y.cols);
    let f = |t: usize, i: usize| -> (b: bool)
        requires
            same_shape(y, control_mask),
            y.has(t, i),
        ensures
            b == control_cell(y, control_mask, t as int, i as int),
    { control_mask.get(t, i) != 0 && bits::is_finite(y.get(t, i)) };
    let mask: Matrix<bool> = Matrix::build(y.rows, y.cols, f);
    let r: Vec<(usize, usize)> = true_cells(&mask);
    proof {
        crate::matrix::lemma_same_listing(
            r@,
            y.rows as int,
            y.cols as int,
            |t: int, i: int| mask.at(t, i),
            |t: int, i: int| control_cell(y, control_mask, t, i),
        );
    }
    r
}

/// Cell `(t, i)` is treated if period `t` is `start` or later, untreated if it
/// is earlier.
pub open spec fn on_schedule(d: &Matrix<u64>, t: int, i: int, start: int) -> bool {
    if t >= start {
        treated(d, t, i)
    } else {
        untreated(d, t, i)
    }
}

/// Unit `i` is treated exactly from period `start` on.
pub open spec fn adopts_at(d: &Matrix<u64>, i: int, start: int) -> bool {
    forall|t: int| 0 <= t < d.rows ==> #[trigger] on_schedule(d, t, i, start)
}

/// Every treated unit is treated exactly from period `start` on.
pub open spec fn adopts_together(d: &Matrix<u64>, start: int) -> bool {
    forall|i: int|
        0 <= i < d.cols && #[trigger] ever_treated(d, i) ==> adopts_at(d, i, start)
}

/// Treatment starts in the same period for every treated unit and stays on.
pub open spec fn simultaneous(d: &Matrix<u64>) -> bool {
    exists|start: int| 0 <= start <= d.rows && #[trigger] adopts_together(d, start)
}

proof fn lemma_start_is_first(d: &Matrix<u64>, start: int, first: int)
    requires
        0 <= start <= d.rows,
        adopts_together(d, start),
        0 <= first < d.rows,
        treated_row(d, first),
        forall|t: int| 0 <= t < first ==> !#[trigger] treated_row(d, t),
    ensures
        start == first,
{
    let i = choose|i: int| 0 <= i < d.cols && #[trigger] treated(d, first, i);
    assert(ever_treated(d, i));
    assert(adopts_at(d, i, start));
    assert(on_schedule(d, first, i, start));
    if start < first {
        assert(on_schedule(d, start, i, start));
        assert(treated_row(d, start));
    }
}

/// Checks that treatment is adopted simultaneously and kept, and returns the
/// number of treated periods, zero where nothing is treated.
pub fn check_simultaneous_adoption(d: &Matrix<u64>) -> (r: TropResult<usize>)
    requires
        d.wf(),
    ensures
        r is Ok <==> simultaneous(d),
        r is Err ==> r->Err_0 == TropError::InvalidDimension,
        r is Ok ==> r->Ok_0 <= d.rows && adopts_together(d, d.rows - r->Ok_0) && (r->Ok_0 > 0
            <==> any_treated(d)),
{
    let start: usize = first_treated_period(d);
    if start == d.rows {
        proof {
            assert forall|i: int| 0 <= i < d.cols && #[trigger] ever_treated(
                d,
                i,
            ) implies adopts_at(d, i, d.rows as int) by {
                let t = choose|t: int| 0 <= t < d.rows && #[trigger] treated(d, t, i);
                assert(treated_row(d, t));
            }
            assert(adopts_together(d, d.rows as int));
        }
        return Ok(0);
    }
    let mut i: usize = 0;
    while i < d.cols
        invariant
            d.wf(),
            i <= d.cols,
            start < d.rows,
            treated_row(d, start as int),
            forall|t: int| 0 <= t < start ==> !#[trigger] treated_row(d, t),
            forall|j: int|
                0 <= j < i && #[trigger] ever_treated(d, j) ==> adopts_at(d, j, start as int),
        decreases d.cols - i,
    {
        if is_ever_treated(d, i) {
            let mut t: usize = 0;
            while t < d.rows
                invariant
                    d.wf(),
                    i < d.cols,
                    t <= d.rows,
                    start < d.rows,
                    ever_treated(d, i as int),
                    treated_row(d, start as int),
                    forall|t: int| 0 <= t < start ==> !#[trigger] treated_row(d, t),
                    forall|s: int|
                        0 <= s < t ==> #[trigger] on_schedule(d, s, i as int, start as int),
                decreases d.rows - t,
            {
                let ok: bool = if t >= start {
                    is_treated(d, t, i)
                } else {
                    is_untreated(d, t, i)
                };
                if !ok {
                    proof {
                        if simultaneous(d) {
                            let s = choose|s: int|
                                0 <= s <= d.rows && #[trigger] adopts_together(d, s);
                            lemma_start_is_first(d, s, start as int);
                            assert(adopts_at(d, i as int, start as int));
                            assert(on_schedule(d, t as int, i as int, start as int));
                        }
                    }
                    return Err(TropError::InvalidDimension);
                }
                t = t + 1;
            }
            assert(adopts_at(d, i as int, start as int));
        }
        i = i + 1;
    }
    assert(adopts_together(d, start as int));
    Ok(d.rows - start)
}

/// Refuses a panel without a treated cell.
pub fn validate_has_treated_units(d: &Matrix<u64>) -> (r: TropResult<()>)
    requires
        d.wf(),
    ensures
        r is Ok <==> any_treated(d),
        r is Err ==> r->Err_0 == TropError::NoTreated,
{
    if first_treated_period(d) < d.rows {
        Ok(())
    } else {
        Err(TropError::NoTreated)
    }
}

/// Value of the criterion at some parameters, and how it came about.
#[derive(Debug, Clone, Copy, PartialEq, Eq)]
pub struct ScoreResult {
    pub score: u64,
    /// Cells that were fitted and entered the sum.
    pub n_valid: usize,
    /// First cell whose fit failed.
    pub first_failed: Option<(usize, usize)>,
}

/// What leaving out one cell gave.
#[derive(Debug, Clone, Copy, PartialEq, Eq, Structural)]
pub enum Fit {
    /// The fit failed.
    Failed,
    /// The fit succeeded, but the outcome of the cell is not finite.
    Unobserved,
    /// The fit succeeded; the sum of squared effects including this cell.
    Effect(u64),
}

/// Evaluation of the criterion, cell by cell, given up at the first failure
/// and as soon as the sum exceeds a bound.
#[derive(Debug, Clone, Copy, PartialEq, Eq)]
pub struct ScoreScan {
    pub n_valid: usize,
    pub sum: u64,
    /// Result, where the evaluation was given up.
    pub stopped: Option<ScoreResult>,
}

pub open spec fn scan_start() -> ScoreScan {
    ScoreScan { n_valid: 0, sum: bits::ZERO, stopped: None }
}

/// The evaluation after one more cell.
pub open spec fn scan_step(s: ScoreScan, cell: (usize, usize), fit: Fit, bound: u64) -> ScoreScan {
    match fit {
        Fit::Failed => ScoreScan {
            stopped: Some(
                ScoreResult { score: bits::INFINITY, n_valid: s.n_valid, first_failed: Some(cell) },
            ),
            ..s
        },
        Fit::Unobserved => s,
        Fit::Effect(sum) => {
            let n_valid = (s.n_valid + 1) as usize;
            ScoreScan {
                n_valid,
                sum,
                stopped: if bits::lt(bound, sum) {
                    Some(ScoreResult { score: sum, n_valid, first_failed: None })
                } else {
                    None
                },
            }
        },
    }
}

/// Result of an evaluation: infinite where no cell entered the sum.
pub open spec fn scan_result(s: ScoreScan) -> ScoreResult {
    match s.stopped {
        Some(r) => r,
        None => if s.n_valid == 0 {
            ScoreResult { score: bits::INFINITY, n_valid: 0, first_failed: None }
        } else {
            ScoreResult { score: s.sum, n_valid: s.n_valid, first_failed: None }
        },
    }
}

/// The evaluation after the first `n` cells; it stays as it is once it was
/// given up.
pub open spec fn scan_of(
    cells: Seq<(usize, usize)>,
    fits: Seq<Fit>,
    bound: u64,
    n: int,
) -> ScoreScan
    decreases n,
{
    if n <= 0 {
        scan_start()
    } else {
        let s = scan_of(cells, fits, bound, n - 1);
        if s.stopped is Some {
            s
        } else {
            scan_step(s, cells[n - 1], fits[n - 1], bound)
        }
    }
}

impl ScoreScan {
    pub fn new() -> (r: ScoreScan)
        ensures
            r == scan_start(),
    {
        ScoreScan { n_valid: 0, sum: bits::ZERO, stopped: None }
    }

    /// Takes in what leaving out `cell` gave.
    pub fn record(&mut self, cell: (usize, usize), fit: Fit, bound: u64)
        requires
            old(self).stopped is None,
            old(self).n_valid < usize::MAX,
        ensures
            *final(self) == scan_step(*old(self), cell, fit, bound),
    {
        match fit {
            Fit::Failed => {
                self.stopped = Some(
                    ScoreResult {
                        score: bits::INFINITY,
                        n_valid: self.n_valid,
                        first_failed: Some(cell),
                    },
                );
            },
            Fit::Unobserved => {},
            Fit::Effect(sum) => {
                self.n_valid = self.n_valid + 1;
                self.sum = sum;
                if bits::less_than(bound, sum) {
                    self.stopped = Some(
                        ScoreResult { score: sum, n_valid: self.n_valid, first_failed: None },
                    );
                }
            },
        }
    }

    pub fn finish(&self) -> (r: ScoreResult)
        ensures
            r == scan_result(*self),
    {
        match self.stopped {
            Some(r) => r,
            None => {
                if self.n_valid == 0 {
                    ScoreResult { score: bits::INFINITY, n_valid: 0, first_failed: None }
                } else {
                    ScoreResult { score: self.sum, n_valid: self.n_valid, first_failed: None }
                }
            },
        }
    }
}

/// Cells whose fit failed, in order.
pub open spec fn failed_of(cells: Seq<(usize, usize)>, fits: Seq<Fit>) -> Seq<(usize, usize)>
    decreases cells.len(),
{
    if cells.len() == 0 {
        Seq::empty()
    } else {
        let rest = failed_of(cells.drop_last(), fits.drop_last());
        if fits.last() == Fit::Failed {
            rest.push(cells.last())
        } else {
            rest
        }
    }
}

/// Number of cells that entered the sum.
pub open spec fn valid_of(fits: Seq<Fit>) -> int
    decreases fits.len(),
{
    if fits.len() == 0 {
        0
    } else {
        valid_of(fits.drop_last()) + if fits.last() is Effect {
            1int
        } else {
            0
        }
    }
}

/// Sum of squared effects after the last cell that entered it.
pub open spec fn sum_of(fits: Seq<Fit>) -> u64
    decreases fits.len(),
{
    if fits.len() == 0 {
        bits::ZERO
    } else {
        match fits.last() {
            Fit::Effect(sum) => sum,
            _ => sum_of(fits.drop_last()),
        }
    }
}

/// Value of the criterion with a record of every failure.
#[derive(Debug)]
pub struct Diagnosis {
    pub score: u64,
    pub n_valid: usize,
    pub failed: Vec<(usize, usize)>,
}

impl Diagnosis {
    /// This is the criterion over all cells: infinite where a fit failed or no
    /// cell entered the sum.
    pub open spec fn diagnoses(&self, cells: Seq<(usize, usize)>, fits: Seq<Fit>) -> bool {
        &&& self.failed@ == failed_of(cells, fits)
        &&& self.n_valid == valid_of(fits)
        &&& self.score == if failed_of(cells, fits).len() > 0 || valid_of(fits) == 0 {
            bits::INFINITY
        } else {
            sum_of(fits)
        }
    }
}

/// Evaluates the criterion over all cells.
pub fn diagnose(cells: &Vec<(usize, usize)>, fits: &Vec<Fit>) -> (r: Diagnosis)
    requires
        cells@.len() == fits@.len(),
    ensures
        r.diagnoses(cells@, fits@),
{
    let mut failed: Vec<(usize, usize)> = Vec::new();
    let mut n_valid: usize = 0;
    let mut sum: u64 = bits::ZERO;
    let mut k: usize = 0;
    while k < cells.len()
        invariant
            k <= cells@.len(),
            cells@.len() == fits@.len(),
            failed@ == failed_of(cells@.take(k as int), fits@.take(k as int)),
            n_valid == valid_of(fits@.take(k as int)),
            sum == sum_of(fits@.take(k as int)),
            n_valid <= k,
        decreases cells@.len() - k,
    {
        proof {
            assert(cells@.take(k + 1).drop_last() =~= cells@.take(k as int));
            assert(fits@.take(k + 1).drop_last() =~= fits@.take(k as int));
        }
        match fits[k] {
            Fit::Failed => {
                failed.push(cells[k]);
            },
            Fit::Unobserved => {},
            Fit::Effect(s) => {
                sum = s;
                n_valid = n_valid + 1;
            },
        }
        k = k + 1;
    }
    proof {
        assert(cells@.take(k as int) =~= cells@);
        assert(fits@.take(k as int) =~= fits@);
    }
    let score: u64 = if failed.len() > 0 || n_valid == 0 {
        bits::INFINITY
    } else {
        sum
    };
    Diagnosis { score, n_valid, failed }
}

/// First cell whose fit failed.
pub fn first_failed(diagnosis: &Diagnosis) -> (r: Option<(usize, usize)>)
    ensures
        r == if diagnosis.failed@.len() > 0 {
            Some(diagnosis.failed@[0])
        } else {
            None
        },
{
    if diagnosis.failed.len() > 0 {
        Some(diagnosis.failed[0])
    } else {
        None
    }
}

proof fn lemma_scan_without_bound(
    cells: Seq<(usize, usize)>,
    fits: Seq<Fit>,
    bound: u64,
    n: int,
)
    requires
        cells.len() == fits.len(),
        0 <= n <= cells.len(),
        cells.len() <= usize::MAX,
        forall|k: int| 0 <= k < fits.len() ==> #[trigger] fits[k] != Fit::Failed,
        forall|k: int|
            0 <= k < fits.len() ==> (#[trigger] fits[k] matches Fit::Effect(sum) ==> !bits::lt(
                bound,
                sum,
            )),
    ensures
        scan_of(cells, fits, bound, n) == (ScoreScan {
            n_valid: valid_of(fits.take(n)) as usize,
            sum: sum_of(fits.take(n)),
            stopped: None,
        }),
        0 <= valid_of(fits.take(n)) <= n,
        failed_of(cells.take(n), fits.take(n)) == Seq::<(usize, usize)>::empty(),
    decreases n,
{
    if n > 0 {
        lemma_scan_without_bound(cells, fits, bound, n - 1);
        assert(fits.take(n).drop_last() =~= fits.take(n - 1));
        assert(cells.take(n).drop_last() =~= cells.take(n - 1));
        assert(fits[n - 1] != Fit::Failed);
    }
}

/// Where no fit fails and no partial sum exceeds the bound, giving up early and
/// going through all cells lead to the same value and the same count.
pub proof fn law_scan_agrees_with_diagnosis(
    cells: Seq<(usize, usize)>,
    fits: Seq<Fit>,
    bound: u64,
)
    requires
        cells.len() == fits.len(),
        cells.len() <= usize::MAX,
        forall|k: int| 0 <= k < fits.len() ==> #[trigger] fits[k] != Fit::Failed,
        forall|k: int|
            0 <= k < fits.len() ==> (#[trigger] fits[k] matches Fit::Effect(sum) ==> !bits::lt(
                bound,
                sum,
            )),
    ensures
        ({
            let r = scan_result(scan_of(cells, fits, bound, cells.len() as int));
            &&& failed_of(cells, fits).len() == 0
            &&& r.first_failed is None
            &&& r.n_valid == valid_of(fits)
            &&& r.score == if valid_of(fits) == 0 {
                bits::INFINITY
            } else {
                sum_of(fits)
            }
        }),
{
    let n = cells.len() as int;
    lemma_scan_without_bound(cells, fits, bound, n);
    assert(cells.take(n) =~= cells);
    assert(fits.take(n) =~= fits);
}

proof fn lemma_scan_failed(
    cells: Seq<(usize, usize)>,
    fits: Seq<Fit>,
    bound: u64,
    n: int,
)
    requires
        cells.len() == fits.len(),
        0 <= n <= cells.len(),
        cells.len() <= usize::MAX,
    ensures
        ({
            let s = scan_of(cells, fits, bound, n);
            &&& s.n_valid <= n
            &&& s.stopped is None ==> failed_of(cells.take(n), fits.take(n)).len() == 0
            &&& s.stopped matches Some(r) ==> r.n_valid <= n && (r.first_failed matches Some(cell)
                ==> r.score == bits::INFINITY && failed_of(cells.take(n), fits.take(n)).len() > 0
                && failed_of(cells.take(n), fits.take(n))[0] == cell)
        }),
    decreases n,
{
    if n > 0 {
        lemma_scan_failed(cells, fits, bound, n - 1);
        assert(fits.take(n).drop_last() =~= fits.take(n - 1));
        assert(cells.take(n).drop_last() =~= cells.take(n - 1));
    }
}

/// A failure makes the criterion infinite, and the cell reported is the first
/// that the full diagnosis reports; never do more cells enter the sum than
/// there are.
pub proof fn law_scan_reports_first_failure(
    cells: Seq<(usize, usize)>,
    fits: Seq<Fit>,
    bound: u64,
)
    requires
        cells.len() == fits.len(),
        cells.len() <= usize::MAX,
    ensures
        ({
            let r = scan_result(scan_of(cells, fits, bound, cells.len() as int));
            &&& r.n_valid <= cells.len()
            &&& r.first_failed matches Some(cell) ==> r.score == bits::INFINITY && failed_of(
                cells,
                fits,
            ).len() > 0 && failed_of(cells, fits)[0] == cell
        }),
{
    let n = cells.len() as int;
    lemma_scan_failed(cells, fits, bound, n);
    assert(cells.take(n) =~= cells);
    assert(fits.take(n) =~= fits);
}

/// The sums of squared effects never decrease from one cell to a later one, as
/// long as they are numbers.
pub open spec fn sums_grow(fits: Seq<Fit>) -> bool {
    forall|i: int, j: int|
        0 <= i <= j < fits.len() && fits[i] is Effect && fits[j] is Effect ==> bits::nan(
            (#[trigger] fits[j])->Effect_0,
        ) || bits::le((#[trigger] fits[i])->Effect_0, fits[j]->Effect_0)
}

proof fn lemma_last_sum_largest(fits: Seq<Fit>, k: int)
    requires
        sums_grow(fits),
        0 <= k < fits.len(),
        fits[k] is Effect,
    ensures
        bits::nan(sum_of(fits)) || bits::le(fits[k]->Effect_0, sum_of(fits)),
    decreases fits.len(),
{
    if fits.last() is Effect {
        assert(fits[fits.len() - 1] is Effect);
    } else {
        let rest = fits.drop_last();
        assert(rest[k] == fits[k]);
        assert forall|i: int, j: int|
            0 <= i <= j < rest.len() && rest[i] is Effect && rest[j] is Effect implies bits::nan(
            (#[trigger] rest[j])->Effect_0,
        ) || bits::le((#[trigger] rest[i])->Effect_0, rest[j]->Effect_0) by {
            assert(rest[i] == fits[i] && rest[j] == fits[j]);
        }
        lemma_last_sum_largest(rest, k);
    }
}

proof fn lemma_full_scan(cells: Seq<(usize, usize)>, fits: Seq<Fit>, n: int)
    requires
        cells.len() == fits.len(),
        0 <= n <= cells.len(),
        cells.len() <= usize::MAX,
    ensures
        ({
            let s = scan_of(cells, fits, bits::INFINITY, n);
            let failed = failed_of(cells.take(n), fits.take(n));
            &&& 0 <= valid_of(fits.take(n)) <= n
            &&& s.stopped is None <==> failed.len() == 0
            &&& s.stopped is None ==> s.n_valid == valid_of(fits.take(n)) && s.sum == sum_of(
                fits.take(n),
            )
            &&& s.stopped matches Some(r) ==> r.score == bits::INFINITY && r.first_failed == Some(
                failed[0],
            )
        }),
    decreases n,
{
    if n > 0 {
        lemma_full_scan(cells, fits, n - 1);
        assert(fits.take(n).drop_last() =~= fits.take(n - 1));
        assert(cells.take(n).drop_last() =~= cells.take(n - 1));
    }
}

proof fn lemma_scan_not_given_up(
    cells: Seq<(usize, usize)>,
    fits: Seq<Fit>,
    bound: u64,
    n: int,
)
    requires
        cells.len() == fits.len(),
        0 <= n <= cells.len(),
        scan_of(cells, fits, bound, n).stopped matches Some(r) ==> r.first_failed is Some,
    ensures
        scan_of(cells, fits, bits::INFINITY, n) == scan_of(cells, fits, bound, n),
    decreases n,
{
    if n > 0 {
        lemma_scan_not_given_up(cells, fits, bound, n - 1);
    }
}

/// What a diagnosis reports accounts for every cell: where every outcome is
/// observed, each either entered the sum or is among the failed ones, which are
/// listed in order.  The criterion is infinite where a fit failed or no cell
/// entered; the evaluation without a bound reports the first of the failed
/// cells, and the same criterion and count where there is none.
pub proof fn law_diagnosis_accounts_for_cells(
    d: Diagnosis,
    cells: Seq<(usize, usize)>,
    fits: Seq<Fit>,
)
    requires
        cells.len() == fits.len(),
        cells.len() <= usize::MAX,
        d.diagnoses(cells, fits),
    ensures
        ({
            let full = scan_result(scan_of(cells, fits, bits::INFINITY, cells.len() as int));
            &&& (forall|k: int| 0 <= k < fits.len() ==> #[trigger] fits[k] != Fit::Unobserved)
                ==> d.n_valid + d.failed@.len() == cells.len()
            &&& exists|at: Seq<int>| #[trigger] picks(d.failed@, cells, at)
            &&& d.failed@.len() > 0 || d.n_valid == 0 ==> d.score == bits::INFINITY
            &&& full.score == d.score
            &&& d.failed@.len() == 0 ==> full.n_valid == d.n_valid && full.first_failed is None
            &&& d.failed@.len() > 0 ==> full.first_failed == Some(d.failed@[0])
        }),
{
    let n = cells.len() as int;
    lemma_full_scan(cells, fits, n);
    assert(fits.take(n) =~= fits);
    assert(cells.take(n) =~= cells);
    lemma_failed_picked(cells, fits);
    if forall|k: int| 0 <= k < fits.len() ==> #[trigger] fits[k] != Fit::Unobserved {
        lemma_cells_counted(cells, fits);
    }
}

/// `some` are the items of `all` at the places `at`, in their order.
pub open spec fn picks<T>(some: Seq<T>, all: Seq<T>, at: Seq<int>) -> bool {
    &&& at.len() == some.len()
    &&& forall|k: int|
        0 <= k < at.len() ==> 0 <= #[trigger] at[k] < all.len() && some[k] == all[at[k]]
    &&& forall|j: int, k: int| 0 <= j < k < at.len() ==> #[trigger] at[j] < #[trigger] at[k]
}

proof fn lemma_failed_picked(cells: Seq<(usize, usize)>, fits: Seq<Fit>)
    requires
        cells.len() == fits.len(),
    ensures
        exists|at: Seq<int>| #[trigger] picks(failed_of(cells, fits), cells, at),
    decreases cells.len(),
{
    if cells.len() == 0 {
        assert(picks(failed_of(cells, fits), cells, Seq::<int>::empty()));
    } else {
        let (c, f) = (cells.drop_last(), fits.drop_last());
        lemma_failed_picked(c, f);
        let at = choose|at: Seq<int>| #[trigger] picks(failed_of(c, f), c, at);
        if fits.last() == Fit::Failed {
            let more = at.push(cells.len() - 1);
            assert forall|k: int| 0 <= k < more.len() implies 0 <= #[trigger] more[k] < cells.len()
                && failed_of(cells, fits)[k] == cells[more[k]] by {
                if k < at.len() {
                    assert(more[k] == at[k]);
                }
            }
            assert(picks(failed_of(cells, fits), cells, more));
        } else {
            assert forall|k: int| 0 <= k < at.len() implies 0 <= #[trigger] at[k] < cells.len()
                && failed_of(cells, fits)[k] == cells[at[k]] by {}
            assert(picks(failed_of(cells, fits), cells, at));
        }
    }
}

proof fn lemma_cells_counted(cells: Seq<(usize, usize)>, fits: Seq<Fit>)
    requires
        cells.len() == fits.len(),
        forall|k: int| 0 <= k < fits.len() ==> #[trigger] fits[k] != Fit::Unobserved,
    ensures
        valid_of(fits) + failed_of(cells, fits).len() == cells.len(),
    decreases cells.len(),
{
    if cells.len() > 0 {
        let f = fits.drop_last();
        assert forall|k: int| 0 <= k < f.len() implies #[trigger] f[k] != Fit::Unobserved by {
            assert(f[k] == fits[k]);
        }
        assert(fits[fits.len() - 1] != Fit::Unobserved);
        lemma_cells_counted(cells.drop_last(), f);
    }
}

proof fn lemma_scan_stopped_at(
    cells: Seq<(usize, usize)>,
    fits: Seq<Fit>,
    bound: u64,
    n: int,
) -> (k: int)
    requires
        cells.len() == fits.len(),
        0 <= n <= cells.len(),
        scan_of(cells, fits, bound, n).stopped is Some,
        scan_of(cells, fits, bound, n).stopped->0.first_failed is None,
    ensures
        0 <= k < n,
        fits[k] == Fit::Effect(scan_of(cells, fits, bound, n).stopped->0.score),
        bits::lt(bound, scan_of(cells, fits, bound, n).stopped->0.score),
    decreases n,
{
    if scan_of(cells, fits, bound, n - 1).stopped is Some {
        lemma_scan_stopped_at(cells, fits, bound, n - 1)
    } else {
        n - 1
    }
}

/// Giving up above a bound loses nothing.  A criterion within the bound, and a
/// failure, are what the evaluation without a bound gives.  Where sums only
/// grow, a criterion above the bound is at most the one without a bound, unless
/// that is no number, and parameters whose criterion without a bound is within
/// the bound are evaluated in full.
pub proof fn law_giving_up_is_safe(cells: Seq<(usize, usize)>, fits: Seq<Fit>, bound: u64)
    requires
        cells.len() == fits.len(),
        cells.len() <= usize::MAX,
    ensures
        ({
            let r = scan_result(scan_of(cells, fits, bound, cells.len() as int));
            let full = scan_result(scan_of(cells, fits, bits::INFINITY, cells.len() as int));
            &&& bits::le(r.score, bound) || r.first_failed is Some ==> r == full
            &&& sums_grow(fits) && bits::lt(bound, r.score) ==> bits::nan(full.score) || bits::le(
                r.score,
                full.score,
            )
            &&& sums_grow(fits) && bits::le(full.score, bound) ==> r == full
        }),
{
    let n = cells.len() as int;
    let s = scan_of(cells, fits, bound, n);
    if s.stopped is Some && s.stopped->0.first_failed is None {
        let k = lemma_scan_stopped_at(cells, fits, bound, n);
        lemma_full_scan(cells, fits, n);
        assert(fits.take(n) =~= fits);
        assert(cells.take(n) =~= cells);
        if sums_grow(fits) {
            lemma_last_sum_largest(fits, k);
        }
        lemma_effect_counted(fits, k);
    } else {
        lemma_scan_not_given_up(cells, fits, bound, n);
    }
}

proof fn lemma_effect_counted(fits: Seq<Fit>, k: int)
    requires
        0 <= k < fits.len(),
        fits[k] is Effect,
    ensures
        valid_of(fits) > 0,
    decreases fits.len(),
{
    lemma_count_nonnegative(fits.drop_last());
    if k < fits.len() - 1 {
        lemma_effect_counted(fits.drop_last(), k);
    }
}

proof fn lemma_count_nonnegative(fits: Seq<Fit>)
    ensures
        valid_of(fits) >= 0,
    decreases fits.len(),
{
    if fits.len() > 0 {
        lemma_count_nonnegative(fits.drop_last());
    }
}

/// Number of cells handed to each of `n_threads` workers, at least one.
pub fn chunk_size(n_obs: usize, n_threads: usize) -> (r: usize)
    ensures
        r >= 1,
        n_threads > 0 && n_obs > 0 ==> r == (n_obs + n_threads - 1) / (n_threads as int),
        n_threads > 0 ==> r * n_threads >= n_obs,
        n_threads == 0 ==> r >= n_obs,
{
    let threads: usize = if n_threads == 0 {
        1
    } else {
        n_threads
    };
    let q: usize = n_obs / threads;
    let rest: usize = n_obs % threads;
    proof {
        lemma_ceiling_division(n_obs as int, threads as int);
    }
    let size: usize = if rest > 0 {
        q + 1
    } else {
        q
    };
    if size < 1 {
        1
    } else {
        size
    }
}

proof fn lemma_ceiling_division(n: int, d: int)
    requires
        n >= 0,
        d > 0,
    ensures
        n % d > 0 ==> (n + d - 1) / d == n / d + 1 && (n / d + 1) * d >= n && n / d < n,
        n % d == 0 ==> (n + d - 1) / d == n / d && (n / d) * d >= n,
        n > 0 ==> (n + d - 1) / d >= 1,
        n / d >= 0,
        n == 0 ==> n / d == 0 && n % d == 0,
{
    let (q, r) = (n / d, n % d);
    vstd::arithmetic::div_mod::lemma_fundamental_div_mod(n, d);
    assert(d * q == q * d) by (nonlinear_arith);
    assert((q + 1) * d == q * d + d) by (nonlinear_arith);
    assert(q >= 0) by (nonlinear_arith)
        requires
            n >= 0,
            d > 0,
            n == d * q + r,
            0 <= r < d,
    ;
    if r > 0 {
        vstd::arithmetic::div_mod::lemma_fundamental_div_mod_converse(n + d - 1, d, q + 1, r - 1);
        assert(q < n) by (nonlinear_arith)
            requires
                d > 0,
                n == d * q + r,
                r > 0,
                q >= 0,
        ;
    } else {
        vstd::arithmetic::div_mod::lemma_fundamental_div_mod_converse(n + d - 1, d, q, d - 1);
        if n > 0 {
            assert(q >= 1) by (nonlinear_arith)
                requires
                    d > 0,
                    n == d * q,
                    n > 0,
            ;
        }
    }
}

/// Cells that entered the sum, and the first cell whose fit failed, over
/// chunks handled in order: chunks after one with a failure do not count.
pub open spec fn merged_of(chunks: Seq<(usize, Option<(usize, usize)>)>) -> (
    int,
    Option<(usize, usize)>,
)
    decreases chunks.len(),
{
    if chunks.len() == 0 {
        (0, None)
    } else {
        let (n, failed) = merged_of(chunks.drop_last());
        if failed is Some {
            (n, failed)
        } else {
            (n + chunks.last().0, chunks.last().1)
        }
    }
}

proof fn lemma_merged_bounds(chunks: Seq<(usize, Option<(usize, usize)>)>, n: int)
    requires
        0 <= n <= chunks.len(),
    ensures
        0 <= merged_of(chunks.take(n)).0 <= merged_of(chunks).0,
    decreases chunks.len() - n,
{
    if n < chunks.len() {
        lemma_merged_bounds(chunks, n + 1);
        assert(chunks.take(n + 1).drop_last() =~= chunks.take(n));
        lemma_merged_nonnegative(chunks.take(n));
    } else {
        assert(chunks.take(n) =~= chunks);
        lemma_merged_nonnegative(chunks);
    }
}

proof fn lemma_merged_nonnegative(chunks: Seq<(usize, Option<(usize, usize)>)>)
    ensures
        0 <= merged_of(chunks).0,
    decreases chunks.len(),
{
    if chunks.len() > 0 {
        lemma_merged_nonnegative(chunks.drop_last());
    }
}

/// Combines the chunks of a parallel evaluation whose squared effects sum to
/// `sum`.
pub fn merge_chunks(chunks: &Vec<(usize, Option<(usize, usize)>)>, sum: u64) -> (r: ScoreResult)
    requires
        merged_of(chunks@).0 <= usize::MAX,
    ensures
        r.n_valid == merged_of(chunks@).0,
        r.first_failed == merged_of(chunks@).1,
        r.score == if merged_of(chunks@).1 is Some || merged_of(chunks@).0 == 0 {
            bits::INFINITY
        } else {
            sum
        },
{
    let mut n_valid: usize = 0;
    let mut k: usize = 0;
    while k < chunks.len()
        invariant
            k <= chunks@.len(),
            merged_of(chunks@).0 <= usize::MAX,
            merged_of(chunks@.take(k as int)) == (n_valid as int, None::<(usize, usize)>),
        decreases chunks@.len() - k,
    {
        proof {
            lemma_merged_bounds(chunks@, k + 1);
            assert(chunks@.take(k + 1).drop_last() =~= chunks@.take(k as int));
        }
        n_valid = n_valid + chunks[k].0;
        if let Some(cell) = chunks[k].1 {
            proof {
                lemma_merged_stops(chunks@, k + 1);
            }
            return ScoreResult { score: bits::INFINITY, n_valid, first_failed: Some(cell) };
        }
        k = k + 1;
    }
    proof {
        assert(chunks@.take(k as int) =~= chunks@);
    }
    if n_valid == 0 {
        ScoreResult { score: bits::INFINITY, n_valid, first_failed: None }
    } else {
        ScoreResult { score: sum, n_valid, first_failed: None }
    }
}

proof fn lemma_merged_stops(chunks: Seq<(usize, Option<(usize, usize)>)>, n: int)
    requires
        0 <= n <= chunks.len(),
        merged_of(chunks.take(n)).1 is Some,
    ensures
        merged_of(chunks) == merged_of(chunks.take(n)),
    decreases chunks.len() - n,
{
    if n < chunks.len() {
        assert(chunks.take(n + 1).drop_last() =~= chunks.take(n));
        lemma_merged_stops(chunks, n + 1);
    } else {
        assert(chunks.take(n) =~= chunks);
    }
}

/// Lower of the best score so far and a candidate; NaN never lowers it.
pub open spec fn lower_of(best: u64, candidate: u64) -> u64 {
    if bits::lt(candidate, best) {
        candidate
    } else {
        best
    }
}

/// Best score after observing a candidate.
pub fn observe(best: u64, candidate: u64) -> (r: u64)
    ensures
        r == lower_of(best, candidate),
{
    if bits::less_than(candidate, best) {
        candidate
    } else {
        best
    }
}

/// Best score after an evaluation: only one that every cell entered can lower
/// it, since the sum of a partial one is too low.
pub fn observe_result(best: u64, result: &ScoreResult, n_control: usize) -> (r: u64)
    ensures
        r == if result.n_valid == n_control {
            lower_of(best, result.score)
        } else {
            best
        },
{
    if result.n_valid == n_control {
        observe(best, result.score)
    } else {
        best
    }
}

/// Observing scores never raises the best one, ignores NaN, and gives the same
/// value whatever the order in which workers finish.
pub proof fn law_best_score(best: u64, a: u64, b: u64)
    requires
        !bits::nan(best),
    ensures
        bits::le(lower_of(best, a), best),
        bits::nan(a) ==> lower_of(best, a) == best,
        bits::same(lower_of(lower_of(best, a), b), lower_of(lower_of(best, b), a)),
{
}

/// Whether an evaluation is complete enough to be kept for reuse: every cell
/// entered the sum, or the criterion is infinite.
pub fn is_complete(result: &ScoreResult, n_control: usize) -> (r: bool)
    ensures
        r <==> result.n_valid == n_control || bits::same(result.score, bits::INFINITY),
{
    result.n_valid == n_control || bits::equal(result.score, bits::INFINITY)
}

/// The criterion runs over every cell that is marked as control and has a finite
/// outcome, wherever it stands, each once and in the order of the panel, and over
/// no other; where all are marked and finite, it runs over the whole panel.
pub proof fn law_criterion_runs_over_every_control_cell(
    y: &Matrix<u64>,
    control_mask: &Matrix<u8>,
    r: Vec<(usize, usize)>,
)
    requires
        call_ensures(get_control_observations, (y, control_mask), r),
    ensures
        forall|t: usize, i: usize|
            #![trigger r@.contains((t, i))]
            r@.contains((t, i)) <==> t < y.rows && i < y.cols && control_mask.at(
                t as int,
                i as int,
            ) != 0 && bits::finite(y.at(t as int, i as int)),
        forall|j: int, k: int|
            0 <= j < k < r@.len() ==> (#[trigger] r@[j]).0 < (#[trigger] r@[k]).0 || r@[j].0
                == r@[k].0 && r@[j].1 < r@[k].1,
        (forall|t: int, i: int|
            0 <= t < y.rows && 0 <= i < y.cols ==> #[trigger] control_mask.at(t, i) != 0
                && bits::finite(y.at(t, i))) ==> r@.len() == y.rows * y.cols,
{
    let p = |t: int, i: int| control_cell(y, control_mask, t, i);
    assert forall|t: usize, i: usize|
        #![trigger r@.contains((t, i))]
        r@.contains((t, i)) <==> t < y.rows && i < y.cols && control_mask.at(t as int, i as int)
            != 0 && bits::finite(y.at(t as int, i as int)) by {
        if r@.contains((t, i)) {
            let k = choose|k: int| 0 <= k < r@.len() && r@[k] == (t, i);
            assert(r@[k].0 < y.rows && p(r@[k].0 as int, r@[k].1 as int));
        } else if t < y.rows && i < y.cols {
            assert(!p(t as int, i as int));
        }
    }
    if forall|t: int, i: int|
        0 <= t < y.rows && 0 <= i < y.cols ==> #[trigger] control_mask.at(t, i) != 0
            && bits::finite(y.at(t, i)) {
        assert forall|t: int, i: int| 0 <= t < y.rows && 0 <= i < y.cols implies #[trigger] p(
            t,
            i,
        ) by {
            assert(control_mask.at(t, i) != 0);
        }
        crate::matrix::lemma_listing_of_all(r@, y.rows, y.cols, p);
    }
}

/// A panel passes as simultaneously adopted exactly where some period separates,
/// in every unit that is ever treated, indicators of zero before it from
/// indicators of one from it on; the periods from it on are counted, and none
/// where nothing is treated.
pub proof fn law_simultaneous_adoption(d: &Matrix<u64>, r: TropResult<usize>)
    requires
        call_ensures(check_simultaneous_adoption, (d,), r),
    ensures
        r matches Ok(n) ==> n <= d.rows && forall|s: int, t: int, i: int|
            0 <= s < d.rows && 0 <= t < d.rows && 0 <= i < d.cols && bits::same(
                #[trigger] d.at(s, i),
                bits::ONE,
            ) ==> {
                &&& t < d.rows - n ==> bits::zero(#[trigger] d.at(t, i))
                &&& t >= d.rows - n ==> bits::same(d.at(t, i), bits::ONE)
            },
        r matches Ok(n) ==> (n == 0 <==> forall|t: int, i: int|
            0 <= t < d.rows && 0 <= i < d.cols ==> !bits::same(#[trigger] d.at(t, i), bits::ONE)),
        r is Err ==> r->Err_0 == TropError::InvalidDimension,
{
    if let Ok(n) = r {
        let start = d.rows - n;
        assert forall|s: int, t: int, i: int|
            0 <= s < d.rows && 0 <= t < d.rows && 0 <= i < d.cols && bits::same(
                #[trigger] d.at(s, i),
                bits::ONE,
            ) implies {
            &&& t < d.rows - n ==> bits::zero(#[trigger] d.at(t, i))
            &&& t >= d.rows - n ==> bits::same(d.at(t, i), bits::ONE)
        } by {
            assert(treated(d, s, i));
            assert(ever_treated(d, i));
            assert(adopts_at(d, i, start));
            assert(on_schedule(d, t, i, start));
        }
        if n == 0 {
            assert forall|t: int, i: int| 0 <= t < d.rows && 0 <= i < d.cols implies !bits::same(
                #[trigger] d.at(t, i),
                bits::ONE,
            ) by {
                if treated(d, t, i) {
                    assert(treated_row(d, t));
                    assert(any_treated(d));
                }
            }
        } else {
            let t = choose|t: int| 0 <= t < d.rows && #[trigger] treated_row(d, t);
            let i = choose|i: int| 0 <= i < d.cols && #[trigger] treated(d, t, i);
            assert(bits::same(d.at(t, i), bits::ONE));
        }
    }
}

/// No panel in which all treated units switch from zero to one in the same period
/// and stay there is refused.
pub proof fn law_adopted_panels_pass(d: &Matrix<u64>, r: TropResult<usize>, start: int)
    requires
        call_ensures(check_simultaneous_adoption, (d,), r),
        0 <= start <= d.rows,
        forall|s: int, t: int, i: int|
            0 <= s < d.rows && 0 <= t < d.rows && 0 <= i < d.cols && bits::same(
                #[trigger] d.at(s, i),
                bits::ONE,
            ) ==> {
                &&& t < start ==> bits::zero(#[trigger] d.at(t, i))
                &&& t >= start ==> bits::same(d.at(t, i), bits::ONE)
            },
    ensures
        r is Ok,
{
    assert(adopts_together(d, start)) by {
        assert forall|i: int| 0 <= i < d.cols && #[trigger] ever_treated(d, i) implies adopts_at(
            d,
            i,
            start,
        ) by {
            let s = choose|s: int| 0 <= s < d.rows && #[trigger] treated(d, s, i);
            assert forall|t: int| 0 <= t < d.rows implies #[trigger] on_schedule(
                d,
                t,
                i,
                start,
            ) by {
                assert(bits::same(d.at(s, i), bits::ONE));
                assert(d.at(t, i) == d.at(t, i));
            }
        }
    }
}

/// A panel is refused for want of treatment exactly where no indicator is one.
pub proof fn law_some_cell_is_treated(d: &Matrix<u64>, r: TropResult<()>)
    requires
        call_ensures(validate_has_treated_units, (d,), r),
    ensures
        r is Ok <==> exists|t: int, i: int|
            0 <= t < d.rows && 0 <= i < d.cols && bits::same(#[trigger] d.at(t, i), bits::ONE),
        r is Err ==> r->Err_0 == TropError::NoTreated,
{
    if r is Ok {
        let t = choose|t: int| 0 <= t < d.rows && #[trigger] treated_row(d, t);
        let i = choose|i: int| 0 <= i < d.cols && #[trigger] treated(d, t, i);
        assert(bits::same(d.at(t, i), bits::ONE));
    }
    if exists|t: int, i: int|
        0 <= t < d.rows && 0 <= i < d.cols && bits::same(#[trigger] d.at(t, i), bits::ONE) {
        let (t, i) = choose|t: int, i: int|
            0 <= t < d.rows && 0 <= i < d.cols && bits::same(#[trigger] d.at(t, i), bits::ONE);
        assert(treated(d, t, i));
        assert(treated_row(d, t));
    }
}

/// A diagnosis goes cell by cell: one more cell is added to the failed ones where
/// its fit failed, is counted where it entered the sum, and changes neither
/// otherwise, whatever precedes it.
pub proof fn law_diagnosis_takes_in_every_cell(
    cells: &Vec<(usize, usize)>,
    more: &Vec<(usize, usize)>,
    fits: &Vec<Fit>,
    others: &Vec<Fit>,
    r: Diagnosis,
    s: Diagnosis,
)
    requires
        call_ensures(diagnose, (cells, fits), r),
        call_ensures(diagnose, (more, others), s),
        cells@.len() == fits@.len(),
        more@.len() == cells@.len() + 1,
        others@.len() == more@.len(),
        more@.drop_last() == cells@,
        others@.drop_last() == fits@,
    ensures
        cells@.len() == 0 ==> r.failed@.len() == 0 && r.n_valid == 0 && r.score == bits::INFINITY,
        others@.last() == Fit::Failed ==> s.failed@ == r.failed@.push(more@.last()) && s.n_valid
            == r.n_valid && s.score == bits::INFINITY,
        others@.last() == Fit::Unobserved ==> s.failed@ == r.failed@ && s.n_valid == r.n_valid
            && s.score == r.score,
        others@.last() is Effect ==> s.failed@ == r.failed@ && s.n_valid == r.n_valid + 1,
        others@.last() is Effect && r.failed@.len() == 0 ==> s.score
            == others@.last()->Effect_0,
        others@.last() is Effect && r.failed@.len() > 0 ==> s.score == bits::INFINITY,
{
    lemma_count_nonnegative(fits@);
}

/// An evaluation that is given up above a bound goes cell by cell: it ends at a
/// failed fit, with an infinite criterion and that cell, and at a sum above the
/// bound, with that sum; until then every effect is counted and taken over.
pub proof fn law_scan_takes_in_every_cell(
    cells: Seq<(usize, usize)>,
    fits: Seq<Fit>,
    bound: u64,
    n: int,
)
    requires
        0 <= n < cells.len(),
        cells.len() == fits.len(),
        cells.len() <= usize::MAX,
    ensures
        scan_of(cells, fits, bound, 0).stopped is None,
        scan_of(cells, fits, bound, 0).n_valid == 0,
        ({
            let (s, next) = (scan_of(cells, fits, bound, n), scan_of(cells, fits, bound, n + 1));
            &&& s.stopped is Some ==> next == s
            &&& s.stopped is None && fits[n] == Fit::Failed ==> scan_result(next) == (ScoreResult {
                score: bits::INFINITY,
                n_valid: s.n_valid,
                first_failed: Some(cells[n]),
            }) && next.stopped is Some
            &&& s.stopped is None && fits[n] == Fit::Unobserved ==> next == s
            &&& s.stopped is None ==> (fits[n] matches Fit::Effect(sum) ==> {
                &&& next.n_valid == s.n_valid + 1
                &&& scan_result(next) == (ScoreResult {
                    score: sum,
                    n_valid: next.n_valid,
                    first_failed: None,
                })
                &&& next.stopped is Some <==> bits::lt(bound, sum)
            })
        }),
{
    lemma_scan_failed(cells, fits, bound, n);
}

/// An evaluation to which no cell contributed is infinite.
pub proof fn law_empty_scan_is_infinite(s: ScoreScan, r: ScoreResult)
    requires
        call_ensures(ScoreScan::finish, (&s,), r),
        s.stopped is None,
    ensures
        s.n_valid == 0 ==> r.score == bits::INFINITY && r.n_valid == 0,
        s.n_valid > 0 ==> r.score == s.sum && r.n_valid == s.n_valid,
        r.first_failed is None,
{
}

/// Chunks are combined in order: a chunk after a failure changes nothing, and any
/// other adds its cells and its failure.
pub proof fn law_chunks_are_combined(
    chunks: &Vec<(usize, Option<(usize, usize)>)>,
    more: &Vec<(usize, Option<(usize, usize)>)>,
    sum: u64,
    r: ScoreResult,
    s: ScoreResult,
)
    requires
        call_ensures(merge_chunks, (chunks, sum), r),
        call_ensures(merge_chunks, (more, sum), s),
        more@.len() == chunks@.len() + 1,
        more@.drop_last() == chunks@,
    ensures
        chunks@.len() == 0 ==> r.n_valid == 0 && r.first_failed is None,
        r.first_failed is Some ==> s == r,
        r.first_failed is None ==> s.n_valid == r.n_valid + more@.last().0 && s.first_failed
            == more@.last().1,
        r.score == bits::INFINITY <== r.first_failed is Some || r.n_valid == 0,
        r.first_failed is None && r.n_valid > 0 ==> r.score == sum,
{
}

/// A candidate replaces the best score exactly where it is lower, and an
/// evaluation counts only where every control cell entered it.
pub proof fn law_best_score_is_lowest(
    best: u64,
    candidate: u64,
    r: u64,
    result: &ScoreResult,
    n_control: usize,
    s: u64,
)
    requires
        call_ensures(observe, (best, candidate), r),
        call_ensures(observe_result, (best, result, n_control), s),
    ensures
        bits::lt(candidate, best) ==> r == candidate,
        !bits::lt(candidate, best) ==> r == best,
        result.n_valid != n_control || !bits::lt(result.score, best) ==> s == best,
        result.n_valid == n_control && bits::lt(result.score, best) ==> s == result.score,
{
}

/// Cells are shared out evenly: chunks of the returned size cover all cells with at
/// most as many chunks as workers, and no smaller size would.
pub proof fn law_chunk_size(n_obs: usize, n_threads: usize, r: usize)
    requires
        call_ensures(chunk_size, (n_obs, n_threads), r),
    ensures
        r >= 1,
        n_threads > 0 ==> r * n_threads >= n_obs,
        n_threads > 0 && n_obs > 0 ==> (r - 1) * n_threads < n_obs,
        n_threads == 0 ==> r >= n_obs,
{
    if n_threads > 0 && n_obs > 0 {
        let (n, d) = (n_obs as int, n_threads as int);
        vstd::arithmetic::div_mod::lemma_fundamental_div_mod(n + d - 1, d);
        let q = (n + d - 1) / d;
        assert(d * q == q * d) by (nonlinear_arith);
        assert((q - 1) * d == q * d - d) by (nonlinear_arith);
    }
}

/// An evaluation may be kept exactly where every cell entered it or it is infinite,
/// and the first failure of a diagnosis is the first that it lists.
pub proof fn law_complete_evaluations(
    result: &ScoreResult,
    n_control: usize,
    r: bool,
    diagnosis: &Diagnosis,
    cell: Option<(usize, usize)>,
)
    requires
        call_ensures(is_complete, (result, n_control), r),
        call_ensures(first_failed, (diagnosis,), cell),
    ensures
        r <==> result.n_valid == n_control || result.score == bits::INFINITY,
        cell is None <==> diagnosis.failed@.len() == 0,
        diagnosis.failed@.len() > 0 ==> cell == Some(diagnosis.failed@[0]),
{
}

} // verus!

//! Stratified resampling of units.
//!
//! A bootstrap replicate resamples the control units among themselves and the
//! treated units among themselves, with replacement, and keeps all periods of
//! each unit that it draws.
use crate::bits;
use crate::matrix::{lemma_extend_listing, lemma_offset_in_range, lists_cells, lists_units, offset, Matrix};
use crate::panel::{
    ever_treated, is_ever_treated, is_never_treated, never_treated, observed_treated,
    observed_treated_cells, same_shape, treated, treated_cells,
};
use crate::rng::{draw_indices, index_draws, seed_generator, seeded_words};
use vstd::arithmetic::div_mod::{lemma_fundamental_div_mod, lemma_fundamental_div_mod_converse};
use vstd::prelude::*;

verus! {

/// Units split into those never treated and those treated at some time.
#[derive(Debug, Clone)]
pub struct UnitClassification {
    /// Columns of the units that are never treated.
    pub control_units: Vec<usize>,
    /// Columns of the units that are treated in some period.
    pub treated_units: Vec<usize>,
    /// Number of control units.
    pub n_control: usize,
    /// Number of treated units.
    pub n_treated: usize,
}

impl UnitClassification {
    /// The counts do not exceed the lists they count.
    pub open spec fn counts_fit(&self) -> bool {
        &&& self.n_control <= self.control_units@.len()
        &&& self.n_treated <= self.treated_units@.len()
    }

    /// This is the classification of the units of `d`.
    pub open spec fn classifies(&self, d: &Matrix<u64>) -> bool {
        &&& lists_units(self.control_units@, d.cols as int, |i: int| !ever_treated(d, i))
        &&& lists_units(self.treated_units@, d.cols as int, |i: int| ever_treated(d, i))
        &&& self.n_control == self.control_units@.len()
        &&& self.n_treated == self.treated_units@.len()
        &&& self.n_control + self.n_treated == d.cols
    }
}

/// Partitions the units of a panel: a unit is treated if it is treated in any
/// period.
pub fn classify_units(d: &Matrix<u64>) -> (r: UnitClassification)
    requires
        d.wf(),
    ensures
        r.classifies(d),
{
    let mut control_units: Vec<usize> = Vec::new();
    let mut treated_units: Vec<usize> = Vec::new();
    let mut i: usize = 0;
    while i < d.cols
        invariant
            d.wf(),
            i <= d.cols,
            lists_units(control_units@, i as int, |i: int| !ever_treated(d, i)),
            lists_units(treated_units@, i as int, |i: int| ever_treated(d, i)),
            control_units@.len() + treated_units@.len() == i,
        decreases d.cols - i,
    {
        proof {
            lemma_extend_listing(control_units@, i, |i: int| !ever_treated(d, i));
            lemma_extend_listing(treated_units@, i, |i: int| ever_treated(d, i));
        }
        if is_ever_treated(d, i) {
            treated_units.push(i);
        } else {
            control_units.push(i);
        }
        i = i + 1;
    }
    let n_control: usize = control_units.len();
    let n_treated: usize = treated_units.len();
    UnitClassification { control_units, treated_units, n_control, n_treated }
}

/// Every unit of a panel is in exactly one group of its classification.
pub proof fn law_groups_partition(c: &UnitClassification, d: &Matrix<u64>, i: usize)
    requires
        c.classifies(d),
        i < d.cols,
    ensures
        c.control_units@.contains(i) <==> !ever_treated(d, i as int),
        c.treated_units@.contains(i) <==> ever_treated(d, i as int),
{
}

/// Units picked out of `units` by the drawn positions.
pub open spec fn picked(units: Seq<usize>, draws: Seq<usize>) -> Seq<usize> {
    Seq::new(draws.len(), |k: int| units[draws[k] as int])
}

/// Positions that a replicate with the given seed draws, of control units and
/// of treated units.
pub open spec fn stratified_draws(
    n_control: usize,
    n_treated: usize,
    seed: u64,
) -> (Seq<usize>, Seq<usize>) {
    let (control, words) = index_draws(seeded_words(seed), n_control, n_control as nat);
    let (treated, _) = index_draws(words, n_treated, n_treated as nat);
    (control, treated)
}

/// Columns that a replicate with the given seed consists of.
pub open spec fn stratified_units(c: &UnitClassification, seed: u64) -> Seq<usize> {
    let (control, treated) = stratified_draws(c.n_control, c.n_treated, seed);
    picked(c.control_units@, control) + picked(c.treated_units@, treated)
}

/// Columns picked out of the two groups by drawn positions.
pub fn pick_units(
    classification: &UnitClassification,
    control_draws: &Vec<usize>,
    treated_draws: &Vec<usize>,
) -> (r: Vec<usize>)
    requires
        forall|k: int|
            0 <= k < control_draws@.len() ==> #[trigger] control_draws@[k]
                < classification.control_units@.len(),
        forall|k: int|
            0 <= k < treated_draws@.len() ==> #[trigger] treated_draws@[k]
                < classification.treated_units@.len(),
    ensures
        r@ == picked(classification.control_units@, control_draws@) + picked(
            classification.treated_units@,
            treated_draws@,
        ),
{
    let mut r: Vec<usize> = Vec::new();
    let mut k: usize = 0;
    while k < control_draws.len()
        invariant
            k <= control_draws@.len(),
            forall|k: int|
                0 <= k < control_draws@.len() ==> #[trigger] control_draws@[k]
                    < classification.control_units@.len(),
            r@ == picked(classification.control_units@, control_draws@).take(k as int),
        decreases control_draws@.len() - k,
    {
        r.push(classification.control_units[control_draws[k]]);
        k = k + 1;
    }
    let ghost first = picked(classification.control_units@, control_draws@);
    assert(r@ == first);
    k = 0;
    while k < treated_draws.len()
        invariant
            k <= treated_draws@.len(),
            forall|k: int|
                0 <= k < treated_draws@.len() ==> #[trigger] treated_draws@[k]
                    < classification.treated_units@.len(),
            r@ == first + picked(classification.treated_units@, treated_draws@).take(k as int),
        decreases treated_draws@.len() - k,
    {
        r.push(classification.treated_units[treated_draws[k]]);
        k = k + 1;
    }
    r
}

/// Draws a stratified bootstrap sample: as many control units as there are,
/// then as many treated units as there are, each group with replacement.
pub fn stratified_sample(classification: &UnitClassification, seed: u64) -> (r: Vec<usize>)
    requires
        classification.counts_fit(),
        classification.n_control + classification.n_treated <= usize::MAX,
    ensures
        r@ == stratified_units(classification, seed),
        r@.len() == classification.n_control + classification.n_treated,
        forall|k: int|
            0 <= k < classification.n_control ==> classification.control_units@.contains(
                #[trigger] r@[k],
            ),
        forall|k: int|
            classification.n_control <= k < r@.len() ==> classification.treated_units@.contains(
                #[trigger] r@[k],
            ),
{
    let mut rng = seed_generator(seed);
    let control: Vec<usize> = draw_indices(
        &mut rng,
        classification.n_control,
        classification.n_control,
    );
    let treated: Vec<usize> = draw_indices(
        &mut rng,
        classification.n_treated,
        classification.n_treated,
    );
    pick_units(classification, &control, &treated)
}

/// Seed of replicate `b` of a run.
pub fn iteration_seed(seed: u64, b: usize) -> (r: u64)
    ensures
        r == (seed + b) % 0x1_0000_0000_0000_0000,
{
    seed.wrapping_add(b as u64)
}

/// Different replicates of a run have different seeds.
pub proof fn law_iteration_seeds_differ(seed: u64, b1: usize, b2: usize)
    requires
        b1 != b2,
    ensures
        (seed + b1) % 0x1_0000_0000_0000_0000 != (seed + b2) % 0x1_0000_0000_0000_0000,
{
}

/// `r` holds the columns `units` of `m`, in that order.
pub open spec fn selects<T: Copy>(r: &Matrix<T>, m: &Matrix<T>, units: Seq<usize>) -> bool {
    &&& r.wf()
    &&& r.rows == m.rows
    &&& r.cols == units.len()
    &&& forall|t: usize, j: usize|
        t < m.rows && j < units.len() ==> #[trigger] r.at(t as int, j as int) == m.at(
            t as int,
            units[j as int] as int,
        )
}

/// All sampled units are columns of the panel.
pub open spec fn in_panel(units: Seq<usize>, cols: usize) -> bool {
    forall|k: int| 0 <= k < units.len() ==> #[trigger] units[k] < cols
}

/// Table made of the columns `units` of `m`.
pub fn select_columns<T: Copy>(m: &Matrix<T>, units: &Vec<usize>) -> (r: Matrix<T>)
    requires
        m.wf(),
        in_panel(units@, m.cols),
        m.rows * units@.len() <= usize::MAX,
    ensures
        selects(&r, m, units@),
{
    let f = |t: usize, j: usize| -> (v: T)
        requires
            m.wf() && in_panel(units@, m.cols) && t < m.rows && j < units@.len(),
        ensures
            v == m.at(t as int, units@[j as int] as int),
    { m.get(t, units[j]) };
    Matrix::build(m.rows, units.len(), f)
}

/// Bootstrap outcome and treatment tables.
pub fn build_bootstrap_matrices(
    y: &Matrix<u64>,
    d: &Matrix<u64>,
    sampled_units: &Vec<usize>,
) -> (r: (Matrix<u64>, Matrix<u64>))
    requires
        same_shape(y, d),
        in_panel(sampled_units@, y.cols),
        y.rows * sampled_units@.len() <= usize::MAX,
    ensures
        selects(&r.0, y, sampled_units@),
        selects(&r.1, d, sampled_units@),
{
    (select_columns(y, sampled_units), select_columns(d, sampled_units))
}

/// Bootstrap outcome and treatment tables and control mask.
pub fn build_bootstrap_matrices_with_mask(
    y: &Matrix<u64>,
    d: &Matrix<u64>,
    control_mask: &Matrix<u8>,
    sampled_units: &Vec<usize>,
) -> (r: (Matrix<u64>, Matrix<u64>, Matrix<u8>))
    requires
        same_shape(y, d),
        same_shape(y, control_mask),
        in_panel(sampled_units@, y.cols),
        y.rows * sampled_units@.len() <= usize::MAX,
    ensures
        selects(&r.0, y, sampled_units@),
        selects(&r.1, d, sampled_units@),
        selects(&r.2, control_mask, sampled_units@),
{
    (
        select_columns(y, sampled_units),
        select_columns(d, sampled_units),
        select_columns(control_mask, sampled_units),
    )
}

/// `buf` holds the columns `units` of `m`, and `blank` in every column after
/// them.
pub open spec fn overwritten<T: Copy>(
    buf: &Matrix<T>,
    m: &Matrix<T>,
    units: Seq<usize>,
    blank: T,
) -> bool {
    forall|t: usize, j: usize|
        t < buf.rows && j < buf.cols ==> #[trigger] buf.at(t as int, j as int) == if j
            < units.len() {
            m.at(t as int, units[j as int] as int)
        } else {
            blank
        }
}

fn overwrite<T: Copy>(buf: &mut Matrix<T>, m: &Matrix<T>, units: &Vec<usize>, blank: T)
    requires
        old(buf).wf(),
        m.wf(),
        old(buf).rows == m.rows,
        old(buf).cols >= units@.len(),
        in_panel(units@, m.cols),
    ensures
        final(buf).wf(),
        final(buf).rows == old(buf).rows,
        final(buf).cols == old(buf).cols,
        overwritten(final(buf), m, units@, blank),
{
    let rows: usize = buf.rows;
    let cols: usize = buf.cols;
    let mut t: usize = 0;
    while t < rows
        invariant
            t <= rows,
            buf.wf(),
            m.wf(),
            buf.rows == rows,
            buf.cols == cols,
            m.rows == rows,
            cols >= units@.len(),
            in_panel(units@, m.cols),
            forall|a: usize, b: usize|
                a < t && b < cols ==> #[trigger] buf.at(a as int, b as int) == if b < units@.len() {
                    m.at(a as int, units@[b as int] as int)
                } else {
                    blank
                },
        decreases rows - t,
    {
        let mut j: usize = 0;
        while j < cols
            invariant
                t < rows,
                j <= cols,
                buf.wf(),
                m.wf(),
                buf.rows == rows,
                buf.cols == cols,
                m.rows == rows,
                cols >= units@.len(),
                in_panel(units@, m.cols),
                forall|a: usize, b: usize|
                    (a < t && b < cols) || (a == t && b < j) ==> #[trigger] buf.at(
                        a as int,
                        b as int,
                    ) == if b < units@.len() {
                        m.at(a as int, units@[b as int] as int)
                    } else {
                        blank
                    },
            decreases cols - j,
        {
            if j < units.len() {
                buf.set(t, j, m.get(t, units[j]));
            } else {
                buf.set(t, j, blank);
            }
            j = j + 1;
        }
        t = t + 1;
    }
}

/// As [`build_bootstrap_matrices`], into buffers that may be wider than the
/// sample; columns beyond the sample are zeroed.
pub fn build_bootstrap_matrices_into(
    y_buf: &mut Matrix<u64>,
    d_buf: &mut Matrix<u64>,
    y: &Matrix<u64>,
    d: &Matrix<u64>,
    sampled_units: &Vec<usize>,
) -> (n: usize)
    requires
        same_shape(y, d),
        old(y_buf).wf(),
        old(d_buf).wf(),
        old(y_buf).rows == y.rows,
        old(d_buf).rows == y.rows,
        old(y_buf).cols >= sampled_units@.len(),
        old(d_buf).cols >= sampled_units@.len(),
        in_panel(sampled_units@, y.cols),
    ensures
        n == sampled_units@.len(),
        final(y_buf).wf(),
        final(y_buf).rows == old(y_buf).rows,
        final(y_buf).cols == old(y_buf).cols,
        final(d_buf).wf(),
        final(d_buf).rows == old(d_buf).rows,
        final(d_buf).cols == old(d_buf).cols,
        overwritten(final(y_buf), y, sampled_units@, bits::ZERO),
        overwritten(final(d_buf), d, sampled_units@, bits::ZERO),
{
    overwrite(y_buf, y, sampled_units, bits::ZERO);
    overwrite(d_buf, d, sampled_units, bits::ZERO);
    sampled_units.len()
}

/// As [`build_bootstrap_matrices_with_mask`], into buffers that may be wider
/// than the sample; columns beyond the sample are zeroed.
pub fn build_bootstrap_matrices_with_mask_into(
    y_buf: &mut Matrix<u64>,
    d_buf: &mut Matrix<u64>,
    mask_buf: &mut Matrix<u8>,
    y: &Matrix<u64>,
    d: &Matrix<u64>,
    control_mask: &Matrix<u8>,
    sampled_units: &Vec<usize>,
) -> (n: usize)
    requires
        same_shape(y, d),
        same_shape(y, control_mask),
        old(y_buf).wf(),
        old(d_buf).wf(),
        old(mask_buf).wf(),
        old(y_buf).rows == y.rows,
        old(d_buf).rows == y.rows,
        old(mask_buf).rows == y.rows,
        old(y_buf).cols >= sampled_units@.len(),
        old(d_buf).cols >= sampled_units@.len(),
        old(mask_buf).cols >= sampled_units@.len(),
        in_panel(sampled_units@, y.cols),
    ensures
        n == sampled_units@.len(),
        final(y_buf).wf(),
        final(y_buf).rows == old(y_buf).rows,
        final(y_buf).cols == old(y_buf).cols,
        final(d_buf).wf(),
        final(d_buf).rows == old(d_buf).rows,
        final(d_buf).cols == old(d_buf).cols,
        final(mask_buf).wf(),
        final(mask_buf).rows == old(mask_buf).rows,
        final(mask_buf).cols == old(mask_buf).cols,
        overwritten(final(y_buf), y, sampled_units@, bits::ZERO),
        overwritten(final(d_buf), d, sampled_units@, bits::ZERO),
        overwritten(final(mask_buf), control_mask, sampled_units@, 0u8),
{
    overwrite(y_buf, y, sampled_units, bits::ZERO);
    overwrite(d_buf, d, sampled_units, bits::ZERO);
    overwrite(mask_buf, control_mask, sampled_units, 0u8);
    sampled_units.len()
}

/// No value of an earlier replicate survives in a reused buffer: what a buffer
/// holds afterwards is a function of the panel and of the sample alone.
pub proof fn law_no_leakage<T: Copy>(
    a: &Matrix<T>,
    b: &Matrix<T>,
    m: &Matrix<T>,
    units: Seq<usize>,
    blank: T,
    t: usize,
    j: usize,
)
    requires
        a.rows == b.rows,
        a.cols == b.cols,
        overwritten(a, m, units, blank),
        overwritten(b, m, units, blank),
        t < a.rows,
        j < a.cols,
    ensures
        a.at(t as int, j as int) == b.at(t as int, j as int),
{
}

proof fn lemma_row_of(n: int, cols: int, row: int)
    requires
        0 <= row < n * cols,
        0 <= n,
        0 <= cols,
    ensures
        0 < cols,
        0 <= row / cols < n,
        0 <= row % cols < cols,
        row == offset(cols, row / cols, row % cols),
{
    assert(0 < cols) by (nonlinear_arith)
        requires
            0 <= row < n * cols,
            0 <= cols,
    ;
    lemma_fundamental_div_mod(row, cols);
    let (q, r) = (row / cols, row % cols);
    assert(cols * q == q * cols) by (nonlinear_arith);
    assert(0 <= q < n) by (nonlinear_arith)
        requires
            0 <= row < n * cols,
            row == cols * q + r,
            0 <= r < cols,
    ;
}

/// `r` holds the covariates `x` of the sampled units: the row of period `t`
/// and position `j` in the sample is the row of period `t` and unit
/// `units[j]` in the panel.
pub open spec fn selects_covariates(
    r: &Matrix<u64>,
    x: &Matrix<u64>,
    n_periods: usize,
    n_units: usize,
    units: Seq<usize>,
) -> bool {
    &&& r.wf()
    &&& r.rows == n_periods * units.len()
    &&& r.cols == x.cols
    &&& forall|t: usize, j: usize, k: usize|
        #![trigger r.at(offset(units.len() as int, t as int, j as int), k as int)]
        t < n_periods && j < units.len() && k < x.cols ==> r.at(
            offset(units.len() as int, t as int, j as int),
            k as int,
        ) == x.at(offset(n_units as int, t as int, units[j as int] as int), k as int)
}

/// Covariates of the sampled units.  Covariates have one row per cell of the
/// panel, by period and within a period by unit.
pub fn resample_covariates(
    x: &Matrix<u64>,
    n_periods: usize,
    n_units: usize,
    units: &Vec<usize>,
) -> (r: Matrix<u64>)
    requires
        x.wf(),
        x.rows == n_periods * n_units,
        in_panel(units@, n_units),
        n_periods * units@.len() <= usize::MAX,
        (n_periods * units@.len()) * x.cols <= usize::MAX,
    ensures
        selects_covariates(&r, x, n_periods, n_units, units@),
{
    let n_boot: usize = units.len();
    let rows: usize = n_periods * n_boot;
    let f = |row: usize, k: usize| -> (v: u64)
        requires
            x.wf() && x.rows == n_periods * n_units && in_panel(units@, n_units) && units@.len()
                == n_boot && row < n_periods * n_boot && k < x.cols,
        ensures
            v == x.at(
                offset(
                    n_units as int,
                    row as int / n_boot as int,
                    units@[row as int % n_boot as int] as int,
                ),
                k as int,
            ),
    {
        proof {
            lemma_row_of(n_periods as int, n_boot as int, row as int);
            lemma_offset_in_range(
                n_periods as int,
                n_units as int,
                row as int / n_boot as int,
                units@[row as int % n_boot as int] as int,
            );
        }
        let t: usize = row / n_boot;
        let j: usize = row % n_boot;
        x.get(t * n_units + units[j], k)
    };
    let r: Matrix<u64> = Matrix::build(rows, x.cols, f);
    proof {
        assert forall|t: usize, j: usize, k: usize|
            #![trigger r.at(offset(units@.len() as int, t as int, j as int), k as int)]
            t < n_periods && j < units@.len() && k < x.cols implies r.at(
            offset(units@.len() as int, t as int, j as int),
            k as int,
        ) == x.at(offset(n_units as int, t as int, units@[j as int] as int), k as int) by {
            let row = offset(n_boot as int, t as int, j as int);
            lemma_offset_in_range(n_periods as int, n_boot as int, t as int, j as int);
            lemma_fundamental_div_mod_converse(row, n_boot as int, t as int, j as int);
            assert(call_ensures(f, (row as usize, k), r.at(row as usize as int, k as int)));
        }
    }
    r
}

/// Weight of a unit; zero where none is recorded.
pub open spec fn weight_of(weights: Seq<u64>, i: int) -> u64 {
    if 0 <= i < weights.len() {
        weights[i]
    } else {
        bits::ZERO
    }
}

/// Weights of the sampled units, each that of the unit it was drawn from.
pub fn resample_weights(weights: &Vec<u64>, units: &Vec<usize>) -> (r: Vec<u64>)
    ensures
        r@ == Seq::new(units@.len(), |j: int| weight_of(weights@, units@[j] as int)),
{
    let mut r: Vec<u64> = Vec::new();
    let mut j: usize = 0;
    while j < units.len()
        invariant
            j <= units@.len(),
            r@ == Seq::new(units@.len(), |j: int| weight_of(weights@, units@[j] as int)).take(
                j as int,
            ),
        decreases units@.len() - j,
    {
        let i: usize = units[j];
        let w: u64 = if i < weights.len() {
            weights[i]
        } else {
            bits::ZERO
        };
        r.push(w);
        j = j + 1;
    }
    r
}

/// Data of one replicate of the twostep bootstrap.
#[derive(Debug)]
pub struct TwostepReplicate {
    /// Columns of the panel that were drawn.
    pub units: Vec<usize>,
    pub y: Matrix<u64>,
    pub d: Matrix<u64>,
    pub control_mask: Matrix<u8>,
    pub x: Option<Matrix<u64>>,
    /// Cells whose effect is estimated.
    pub treated: Vec<(usize, usize)>,
}

impl TwostepReplicate {
    /// This is the replicate made of the columns `units` of a panel.
    pub open spec fn replicates(
        &self,
        y: &Matrix<u64>,
        d: &Matrix<u64>,
        control_mask: &Matrix<u8>,
        x: Option<&Matrix<u64>>,
        units: Seq<usize>,
    ) -> bool {
        &&& self.units@ == units
        &&& selects(&self.y, y, units)
        &&& selects(&self.d, d, units)
        &&& selects(&self.control_mask, control_mask, units)
        &&& self.x is Some <==> x is Some
        &&& x is Some ==> selects_covariates(&self.x->0, x->0, y.rows, y.cols, units)
        &&& lists_cells(
            self.treated@,
            d.rows as int,
            units.len() as int,
            |t: int, j: int| treated(d, t, units[j] as int),
        )
    }
}

/// A sample can be estimated on: it has a treated cell and a unit that is
/// untreated throughout.
pub open spec fn usable(d: &Matrix<u64>, units: Seq<usize>) -> bool {
    &&& exists|j: int| 0 <= j < units.len() && ever_treated(d, #[trigger] units[j] as int)
    &&& exists|j: int| 0 <= j < units.len() && never_treated(d, #[trigger] units[j] as int)
}

/// The sizes of a sample and of its covariates fit in memory.
pub open spec fn sample_fits(rows: usize, n_boot: int, x: Option<&Matrix<u64>>) -> bool {
    &&& rows * n_boot <= usize::MAX
    &&& x is Some ==> (rows * n_boot) * x->0.cols <= usize::MAX
}

/// Covariates, where there are any, have one row per cell of the panel.
pub open spec fn covariates_fit(y: &Matrix<u64>, x: Option<&Matrix<u64>>) -> bool {
    x is Some ==> x->0.wf() && x->0.rows == y.rows * y.cols
}

proof fn lemma_selected_status(d: &Matrix<u64>, boot: &Matrix<u64>, units: Seq<usize>, j: usize)
    requires
        selects(boot, d, units),
        j < units.len(),
    ensures
        ever_treated(boot, j as int) == ever_treated(d, units[j as int] as int),
        never_treated(boot, j as int) == never_treated(d, units[j as int] as int),
{
    let i = units[j as int] as int;
    assert forall|t: usize| t < d.rows implies #[trigger] boot.at(t as int, j as int) == d.at(
        t as int,
        i,
    ) by {}
    if ever_treated(boot, j as int) {
        let t = choose|t: int| 0 <= t < boot.rows && #[trigger] treated(boot, t, j as int);
        assert(boot.at(t as usize as int, j as int) == d.at(t, i));
        assert(treated(d, t, i));
    }
    if ever_treated(d, i) {
        let t = choose|t: int| 0 <= t < d.rows && #[trigger] treated(d, t, i);
        assert(boot.at(t as usize as int, j as int) == d.at(t, i));
        assert(treated(boot, t, j as int));
    }
    if never_treated(boot, j as int) {
        assert forall|t: int| 0 <= t < d.rows implies #[trigger] crate::panel::untreated(
            d,
            t,
            i,
        ) by {
            assert(boot.at(t as usize as int, j as int) == d.at(t, i));
            assert(crate::panel::untreated(boot, t, j as int));
        }
    }
    if never_treated(d, i) {
        assert forall|t: int| 0 <= t < boot.rows implies #[trigger] crate::panel::untreated(
            boot,
            t,
            j as int,
        ) by {
            assert(boot.at(t as usize as int, j as int) == d.at(t, i));
            assert(crate::panel::untreated(d, t, i));
        }
    }
}

fn has_never_treated(d: &Matrix<u64>) -> (r: bool)
    requires
        d.wf(),
    ensures
        r <==> exists|j: int| 0 <= j < d.cols && #[trigger] never_treated(d, j),
{
    let mut j: usize = 0;
    while j < d.cols
        invariant
            d.wf(),
            j <= d.cols,
            forall|k: int| 0 <= k < j ==> !#[trigger] never_treated(d, k),
        decreases d.cols - j,
    {
        if is_never_treated(d, j) {
            return true;
        }
        j = j + 1;
    }
    false
}

/// Data of the replicate made of the columns `units`; `None` where the sample
/// has no treated cell or no unit that is untreated throughout.
pub fn twostep_replicate_of(
    y: &Matrix<u64>,
    d: &Matrix<u64>,
    control_mask: &Matrix<u8>,
    x: Option<&Matrix<u64>>,
    units: Vec<usize>,
) -> (r: Option<TwostepReplicate>)
    requires
        same_shape(y, d),
        same_shape(y, control_mask),
        covariates_fit(y, x),
        in_panel(units@, y.cols),
        sample_fits(y.rows, units@.len() as int, x),
    ensures
        r is Some <==> usable(d, units@),
        r is Some ==> r->0.replicates(y, d, control_mask, x, units@),
{
    let (y_boot, d_boot, mask_boot) = build_bootstrap_matrices_with_mask(
        y,
        d,
        control_mask,
        &units,
    );
    let cells: Vec<(usize, usize)> = treated_cells(&d_boot);
    proof {
        assert forall|t: usize, j: usize| t < d.rows && j < units@.len() implies #[trigger] treated(
            &d_boot,
            t as int,
            j as int,
        ) == treated(d, t as int, units@[j as int] as int) by {
            assert(d_boot.at(t as int, j as int) == d.at(t as int, units@[j as int] as int));
        }
        crate::matrix::lemma_same_listing(
            cells@,
            d.rows as int,
            units@.len() as int,
            |t: int, j: int| treated(&d_boot, t, j),
            |t: int, j: int| treated(d, t, units@[j] as int),
        );
        assert forall|j: int| 0 <= j < units@.len() implies ever_treated(
            d,
            #[trigger] units@[j] as int,
        ) == ever_treated(&d_boot, j) && never_treated(d, units@[j] as int) == never_treated(
            &d_boot,
            j,
        ) by {
            lemma_selected_status(d, &d_boot, units@, j as usize);
        }
    }
    if cells.len() == 0 {
        proof {
            assert forall|j: int| 0 <= j < units@.len() implies !ever_treated(
                d,
                #[trigger] units@[j] as int,
            ) by {
                if ever_treated(d, units@[j] as int) {
                    let t = choose|t: int|
                        0 <= t < d.rows && #[trigger] treated(d, t, units@[j] as int);
                    assert(cells@.contains((t as usize, j as usize)));
                }
            }
        }
        return None;
    }
    proof {
        let (t, j) = cells@[0];
        assert(treated(d, t as int, units@[j as int] as int));
        assert(ever_treated(d, units@[j as int] as int));
    }
    if !has_never_treated(&d_boot) {
        proof {
            assert forall|j: int| 0 <= j < units@.len() implies !never_treated(
                d,
                #[trigger] units@[j] as int,
            ) by {
                assert(!never_treated(&d_boot, j));
            }
        }
        return None;
    }
    proof {
        let j = choose|j: int| 0 <= j < d_boot.cols && #[trigger] never_treated(&d_boot, j);
        assert(never_treated(d, units@[j] as int));
    }
    let x_boot: Option<Matrix<u64>> = match x {
        Some(xm) => Some(resample_covariates(xm, y.rows, y.cols, &units)),
        None => None,
    };
    Some(
        TwostepReplicate {
            units,
            y: y_boot,
            d: d_boot,
            control_mask: mask_boot,
            x: x_boot,
            treated: cells,
        },
    )
}

/// Data of replicate `b` of the twostep bootstrap with base seed `seed`;
/// `None` where the sample cannot be estimated on.
pub fn twostep_replicate(
    y: &Matrix<u64>,
    d: &Matrix<u64>,
    control_mask: &Matrix<u8>,
    x: Option<&Matrix<u64>>,
    classification: &UnitClassification,
    seed: u64,
    b: usize,
) -> (r: Option<TwostepReplicate>)
    requires
        same_shape(y, d),
        same_shape(y, control_mask),
        covariates_fit(y, x),
        classification.classifies(d),
    ensures
        ({
            let units = stratified_units(
                classification,
                ((seed + b) % 0x1_0000_0000_0000_0000) as u64,
            );
            &&& r is Some <==> usable(d, units)
            &&& r is Some ==> r->0.replicates(y, d, control_mask, x, units)
        }),
        in_panel(
            stratified_units(classification, ((seed + b) % 0x1_0000_0000_0000_0000) as u64),
            d.cols,
        ),
{
    let units: Vec<usize> = stratified_sample(classification, iteration_seed(seed, b));
    proof {
        lemma_sample_in_panel(classification, d, units@);
        assert(y.data.len() == y.rows * y.cols);
        if x is Some {
            assert(x->0.data.len() == x->0.rows * x->0.cols);
        }
    }
    twostep_replicate_of(y, d, control_mask, x, units)
}

proof fn lemma_sample_in_panel(c: &UnitClassification, d: &Matrix<u64>, units: Seq<usize>)
    requires
        c.classifies(d),
        units.len() == c.n_control + c.n_treated,
        forall|k: int| 0 <= k < c.n_control ==> c.control_units@.contains(#[trigger] units[k]),
        forall|k: int|
            c.n_control <= k < units.len() ==> c.treated_units@.contains(#[trigger] units[k]),
    ensures
        in_panel(units, d.cols),
{
}

/// On a panel whose indicators are all zero or one, with a unit in either
/// group, every stratified sample can be estimated on.
pub proof fn law_samples_usable(c: &UnitClassification, d: &Matrix<u64>, units: Seq<usize>)
    requires
        d.wf(),
        forall|t: int, i: int|
            0 <= t < d.rows && 0 <= i < d.cols ==> #[trigger] treated(d, t, i)
                || crate::panel::untreated(d, t, i),
        c.classifies(d),
        c.n_control > 0,
        c.n_treated > 0,
        units.len() == c.n_control + c.n_treated,
        forall|k: int| 0 <= k < c.n_control ==> c.control_units@.contains(#[trigger] units[k]),
        forall|k: int|
            c.n_control <= k < units.len() ==> c.treated_units@.contains(#[trigger] units[k]),
    ensures
        usable(d, units),
{
    let i = units[0] as int;
    assert(c.control_units@.contains(units[0]));
    assert(!ever_treated(d, i));
    assert forall|t: int| 0 <= t < d.rows implies #[trigger] crate::panel::untreated(d, t, i) by {
        assert(!treated(d, t, i));
    }
    assert(never_treated(d, i));
    let k = c.n_control as int;
    assert(c.treated_units@.contains(units[k]));
    assert(ever_treated(d, units[k] as int));
}

/// Data of one replicate of the joint bootstrap.
#[derive(Debug)]
pub struct JointReplicate {
    /// Columns of the panel that were drawn.
    pub units: Vec<usize>,
    pub y: Matrix<u64>,
    pub d: Matrix<u64>,
    pub x: Option<Matrix<u64>>,
    /// Cells over which the effect is averaged.
    pub treated: Vec<(usize, usize)>,
}

impl JointReplicate {
    /// This is the replicate made of the columns `units` of a panel.
    pub open spec fn replicates(
        &self,
        y: &Matrix<u64>,
        d: &Matrix<u64>,
        x: Option<&Matrix<u64>>,
        units: Seq<usize>,
    ) -> bool {
        &&& self.units@ == units
        &&& selects(&self.y, y, units)
        &&& selects(&self.d, d, units)
        &&& self.x is Some <==> x is Some
        &&& x is Some ==> selects_covariates(&self.x->0, x->0, y.rows, y.cols, units)
        &&& lists_cells(
            self.treated@,
            d.rows as int,
            units.len() as int,
            |t: int, j: int| observed_treated(y, d, t, units[j] as int),
        )
    }
}

/// Data of the joint replicate made of the columns `units`.
pub fn joint_replicate_of(
    y: &Matrix<u64>,
    d: &Matrix<u64>,
    x: Option<&Matrix<u64>>,
    units: Vec<usize>,
) -> (r: JointReplicate)
    requires
        same_shape(y, d),
        covariates_fit(y, x),
        in_panel(units@, y.cols),
        sample_fits(y.rows, units@.len() as int, x),
    ensures
        r.replicates(y, d, x, units@),
{
    let (y_boot, d_boot) = build_bootstrap_matrices(y, d, &units);
    let cells: Vec<(usize, usize)> = observed_treated_cells(&y_boot, &d_boot);
    proof {
        assert forall|t: usize, j: usize|
            t < d.rows && j < units@.len() implies #[trigger] observed_treated(
            &y_boot,
            &d_boot,
            t as int,
            j as int,
        ) == observed_treated(y, d, t as int, units@[j as int] as int) by {
            assert(d_boot.at(t as int, j as int) == d.at(t as int, units@[j as int] as int));
            assert(y_boot.at(t as int, j as int) == y.at(t as int, units@[j as int] as int));
        }
        crate::matrix::lemma_same_listing(
            cells@,
            d.rows as int,
            units@.len() as int,
            |t: int, j: int| observed_treated(&y_boot, &d_boot, t, j),
            |t: int, j: int| observed_treated(y, d, t, units@[j] as int),
        );
    }
    let x_boot: Option<Matrix<u64>> = match x {
        Some(xm) => Some(resample_covariates(xm, y.rows, y.cols, &units)),
        None => None,
    };
    JointReplicate { units, y: y_boot, d: d_boot, x: x_boot, treated: cells }
}

/// Data of replicate `b` of the joint bootstrap with base seed `seed`.
pub fn joint_replicate(
    y: &Matrix<u64>,
    d: &Matrix<u64>,
    x: Option<&Matrix<u64>>,
    classification: &UnitClassification,
    seed: u64,
    b: usize,
) -> (r: JointReplicate)
    requires
        same_shape(y, d),
        covariates_fit(y, x),
        classification.classifies(d),
    ensures
        r.replicates(
            y,
            d,
            x,
            stratified_units(classification, ((seed + b) % 0x1_0000_0000_0000_0000) as u64),
        ),
        in_panel(r.units@, d.cols),
        r.units@.len() == d.cols,
{
    let units: Vec<usize> = stratified_sample(classification, iteration_seed(seed, b));
    proof {
        lemma_sample_in_panel(classification, d, units@);
        assert(y.data.len() == y.rows * y.cols);
        if x is Some {
            assert(x->0.data.len() == x->0.rows * x->0.cols);
        }
    }
    joint_replicate_of(y, d, x, units)
}

/// Every unit is classified: as treated where its indicator is one in any period,
/// as control otherwise, each group in increasing order and counted.
pub proof fn law_every_unit_is_classified(d: &Matrix<u64>, r: UnitClassification, i: usize)
    requires
        call_ensures(classify_units, (d,), r),
        i < d.cols,
    ensures
        r.treated_units@.contains(i) <==> exists|t: int|
            0 <= t < d.rows && bits::same(#[trigger] d.at(t, i as int), bits::ONE),
        r.control_units@.contains(i) <==> !r.treated_units@.contains(i),
        r.n_control == r.control_units@.len(),
        r.n_treated == r.treated_units@.len(),
        r.n_control + r.n_treated == d.cols,
        forall|j: int, k: int|
            0 <= j < k < r.control_units@.len() ==> #[trigger] r.control_units@[j]
                < #[trigger] r.control_units@[k],
        forall|j: int, k: int|
            0 <= j < k < r.treated_units@.len() ==> #[trigger] r.treated_units@[j]
                < #[trigger] r.treated_units@[k],
{
    if exists|t: int| 0 <= t < d.rows && bits::same(#[trigger] d.at(t, i as int), bits::ONE) {
        let t = choose|t: int|
            0 <= t < d.rows && bits::same(#[trigger] d.at(t, i as int), bits::ONE);
        assert(treated(d, t, i as int));
        assert(ever_treated(d, i as int));
    }
    if ever_treated(d, i as int) {
        let t = choose|t: int| 0 <= t < d.rows && #[trigger] treated(d, t, i as int);
        assert(bits::same(d.at(t, i as int), bits::ONE));
    }
}

/// Every draw picks the unit at its position in its group, control units first.
pub proof fn law_draws_pick_units(
    c: &UnitClassification,
    control_draws: &Vec<usize>,
    treated_draws: &Vec<usize>,
    r: Vec<usize>,
)
    requires
        call_ensures(pick_units, (c, control_draws, treated_draws), r),
    ensures
        r@.len() == control_draws@.len() + treated_draws@.len(),
        forall|k: int|
            0 <= k < control_draws@.len() ==> #[trigger] r@[k]
                == c.control_units@[control_draws@[k] as int],
        forall|k: int|
            0 <= k < treated_draws@.len() ==> #[trigger] r@[control_draws@.len() + k]
                == c.treated_units@[treated_draws@[k] as int],
{
}

/// A sample draws, from one generator fresh from its seed, as many control units
/// as there are and then as many treated units as there are.
pub proof fn law_sample_draws_groups_in_turn(c: &UnitClassification, seed: u64, r: Vec<usize>)
    requires
        call_ensures(stratified_sample, (c, seed), r),
    ensures
        ({
            let first = index_draws(seeded_words(seed), c.n_control, c.n_control as nat);
            let second = index_draws(first.1, c.n_treated, c.n_treated as nat);
            &&& r@.len() == c.n_control + c.n_treated
            &&& forall|k: int|
                0 <= k < c.n_control ==> #[trigger] r@[k] == c.control_units@[first.0[k] as int]
            &&& forall|k: int|
                c.n_control <= k < r@.len() ==> #[trigger] r@[k]
                    == c.treated_units@[second.0[k - c.n_control] as int]
        }),
{
    let first = index_draws(seeded_words(seed), c.n_control, c.n_control as nat);
    crate::rng::law_draws_are_made_one_by_one(seeded_words(seed), c.n_control, c.n_control as nat);
    crate::rng::law_draws_are_made_one_by_one(first.1, c.n_treated, c.n_treated as nat);
}

/// A sampled table holds, in each column, the whole column of the unit drawn for
/// it.
pub proof fn law_columns_are_sampled(
    m: &Matrix<u64>,
    units: &Vec<usize>,
    r: Matrix<u64>,
    t: usize,
    j: usize,
)
    requires
        call_ensures(select_columns::<u64>, (m, units), r),
        t < m.rows,
        j < units@.len(),
    ensures
        r.rows == m.rows,
        r.cols == units@.len(),
        r.at(t as int, j as int) == m.at(t as int, units@[j as int] as int),
{
}

/// The tables of a replicate hold the columns of the units drawn, in each of the
/// three of them.
pub proof fn law_tables_are_sampled_alike(
    y: &Matrix<u64>,
    d: &Matrix<u64>,
    control_mask: &Matrix<u8>,
    units: &Vec<usize>,
    r: (Matrix<u64>, Matrix<u64>, Matrix<u8>),
    t: usize,
    j: usize,
)
    requires
        call_ensures(build_bootstrap_matrices_with_mask, (y, d, control_mask, units), r),
        t < y.rows,
        t < d.rows,
        t < control_mask.rows,
        j < units@.len(),
    ensures
        r.0.cols == units@.len() && r.1.cols == units@.len() && r.2.cols == units@.len(),
        r.0.rows == y.rows && r.1.rows == d.rows && r.2.rows == control_mask.rows,
        r.0.at(t as int, j as int) == y.at(t as int, units@[j as int] as int),
        r.1.at(t as int, j as int) == d.at(t as int, units@[j as int] as int),
        r.2.at(t as int, j as int) == control_mask.at(t as int, units@[j as int] as int),
{
}

/// A reused buffer holds the columns of the units drawn and blanks after them.
pub proof fn law_buffers_are_overwritten<T: Copy>(
    buf: &Matrix<T>,
    m: &Matrix<T>,
    units: Seq<usize>,
    blank: T,
    t: usize,
    j: usize,
)
    requires
        overwritten(buf, m, units, blank),
        t < buf.rows,
        j < buf.cols,
    ensures
        j < units.len() ==> buf.at(t as int, j as int) == m.at(t as int, units[j as int] as int),
        j >= units.len() ==> buf.at(t as int, j as int) == blank,
{
}

/// The covariates of a sample hold, for every period and every unit drawn, those of
/// that unit in that period.
pub proof fn law_covariates_are_sampled(
    x: &Matrix<u64>,
    n_periods: usize,
    n_units: usize,
    units: &Vec<usize>,
    r: Matrix<u64>,
    t: usize,
    j: usize,
    k: usize,
)
    requires
        call_ensures(resample_covariates, (x, n_periods, n_units, units), r),
        t < n_periods,
        j < units@.len(),
        k < x.cols,
    ensures
        r.rows == n_periods * units@.len(),
        r.cols == x.cols,
        r.at(t * units@.len() + j, k as int) == x.at(
            t * n_units + units@[j as int],
            k as int,
        ),
{
    assert(r.at(offset(units@.len() as int, t as int, j as int), k as int) == x.at(
        offset(n_units as int, t as int, units@[j as int] as int),
        k as int,
    ));
}

/// Every sampled unit brings its own weight, zero where it has none.
pub proof fn law_weights_are_sampled(weights: &Vec<u64>, units: &Vec<usize>, r: Vec<u64>, j: int)
    requires
        call_ensures(resample_weights, (weights, units), r),
        0 <= j < units@.len(),
    ensures
        r@.len() == units@.len(),
        units@[j] < weights@.len() ==> r@[j] == weights@[units@[j] as int],
        units@[j] >= weights@.len() ==> r@[j] == bits::ZERO,
{
}

/// A sample in which some unit drawn has an indicator of one, and some unit drawn
/// has only zeros, is estimated on.
pub proof fn law_usable_samples_are_estimated(
    y: &Matrix<u64>,
    d: &Matrix<u64>,
    control_mask: &Matrix<u8>,
    x: Option<&Matrix<u64>>,
    units: Vec<usize>,
    r: Option<TwostepReplicate>,
    t: int,
    j: int,
    k: int,
)
    requires
        call_ensures(twostep_replicate_of, (y, d, control_mask, x, units), r),
        0 <= t < d.rows,
        0 <= j < units@.len(),
        0 <= k < units@.len(),
        bits::same(d.at(t, units@[j] as int), bits::ONE),
        forall|s: int| 0 <= s < d.rows ==> bits::zero(#[trigger] d.at(s, units@[k] as int)),
    ensures
        r is Some,
{
    assert(treated(d, t, units@[j] as int));
    assert(ever_treated(d, units@[j] as int));
    assert forall|s: int| 0 <= s < d.rows implies #[trigger] crate::panel::untreated(
        d,
        s,
        units@[k] as int,
    ) by {
        assert(bits::zero(d.at(s, units@[k] as int)));
    }
    assert(never_treated(d, units@[k] as int));
}

/// A twostep replicate is made only of a sample in which some unit drawn has an
/// indicator of one, and some unit drawn is never treated.  It estimates every
/// treated cell of every unit drawn, and no other.
pub proof fn law_twostep_replicate(
    y: &Matrix<u64>,
    d: &Matrix<u64>,
    control_mask: &Matrix<u8>,
    x: Option<&Matrix<u64>>,
    units: Vec<usize>,
    r: Option<TwostepReplicate>,
)
    requires
        call_ensures(twostep_replicate_of, (y, d, control_mask, x, units), r),
    ensures
        r is Some ==> exists|t: int, j: int|
            0 <= t < d.rows && 0 <= j < units@.len() && bits::same(
                #[trigger] d.at(t, units@[j] as int),
                bits::ONE,
            ),
        r is Some ==> exists|j: int|
            0 <= j < units@.len() && never_treated(d, #[trigger] units@[j] as int),
        r matches Some(s) ==> {
            &&& s.units@ == units@
            &&& s.y.cols == units@.len() && s.d.cols == units@.len() && s.control_mask.cols
                == units@.len()
            &&& s.y.rows == y.rows && s.d.rows == d.rows && s.control_mask.rows
                == control_mask.rows
            &&& forall|t: usize, j: usize|
                #![trigger s.treated@.contains((t, j))]
                s.treated@.contains((t, j)) <==> t < d.rows && j < units@.len() && bits::same(
                    d.at(t as int, units@[j as int] as int),
                    bits::ONE,
                )
            &&& forall|t: usize, j: usize|
                t < y.rows && j < units@.len() ==> #[trigger] s.y.at(t as int, j as int) == y.at(
                    t as int,
                    units@[j as int] as int,
                )
            &&& forall|t: usize, j: usize|
                t < d.rows && j < units@.len() ==> #[trigger] s.d.at(t as int, j as int) == d.at(
                    t as int,
                    units@[j as int] as int,
                )
            &&& forall|t: usize, j: usize|
                t < control_mask.rows && j < units@.len() ==> #[trigger] s.control_mask.at(
                    t as int,
                    j as int,
                ) == control_mask.at(t as int, units@[j as int] as int)
            &&& s.x is Some <==> x is Some
        },
{
    if let Some(s) = r {
        let j = choose|j: int|
            0 <= j < units@.len() && ever_treated(d, #[trigger] units@[j] as int);
        let t = choose|t: int| 0 <= t < d.rows && #[trigger] treated(d, t, units@[j] as int);
        assert(bits::same(d.at(t, units@[j] as int), bits::ONE));
        assert forall|t: usize, j: usize|
            #![trigger s.treated@.contains((t, j))]
            s.treated@.contains((t, j)) <==> t < d.rows && j < units@.len() && bits::same(
                d.at(t as int, units@[j as int] as int),
                bits::ONE,
            ) by {
            if s.treated@.contains((t, j)) {
                let k = choose|k: int| 0 <= k < s.treated@.len() && s.treated@[k] == (t, j);
                assert(s.treated@[k].0 < d.rows);
            }
        }
    }
}

/// A joint replicate holds the columns of the units drawn and averages over every
/// treated cell of theirs with a finite outcome, and over no other.
pub proof fn law_joint_replicate(
    y: &Matrix<u64>,
    d: &Matrix<u64>,
    x: Option<&Matrix<u64>>,
    units: Vec<usize>,
    r: JointReplicate,
)
    requires
        call_ensures(joint_replicate_of, (y, d, x, units), r),
    ensures
        r.units@ == units@,
        r.y.rows == y.rows && r.d.rows == d.rows,
        r.y.cols == units@.len() && r.d.cols == units@.len(),
        r.x is Some <==> x is Some,
        forall|t: usize, j: usize|
            #![trigger r.treated@.contains((t, j))]
            r.treated@.contains((t, j)) <==> t < d.rows && j < units@.len() && bits::same(
                d.at(t as int, units@[j as int] as int),
                bits::ONE,
            ) && bits::finite(y.at(t as int, units@[j as int] as int)),
        forall|t: usize, j: usize|
            t < y.rows && j < units@.len() ==> #[trigger] r.y.at(t as int, j as int) == y.at(
                t as int,
                units@[j as int] as int,
            ),
        forall|t: usize, j: usize|
            t < d.rows && j < units@.len() ==> #[trigger] r.d.at(t as int, j as int) == d.at(
                t as int,
                units@[j as int] as int,
            ),
{
    assert forall|t: usize, j: usize|
        #![trigger r.treated@.contains((t, j))]
        r.treated@.contains((t, j)) <==> t < d.rows && j < units@.len() && bits::same(
            d.at(t as int, units@[j as int] as int),
            bits::ONE,
        ) && bits::finite(y.at(t as int, units@[j as int] as int)) by {
        if r.treated@.contains((t, j)) {
            let k = choose|k: int| 0 <= k < r.treated@.len() && r.treated@[k] == (t, j);
            assert(r.treated@[k].0 < d.rows);
        }
    }
}

/// Replicate `b` of a run is made of the sample drawn with the base seed plus `b`,
/// modulo `2^64`.
pub proof fn law_replicates_draw_their_own_sample(
    y: &Matrix<u64>,
    d: &Matrix<u64>,
    control_mask: &Matrix<u8>,
    x: Option<&Matrix<u64>>,
    c: &UnitClassification,
    seed: u64,
    b: usize,
    own: u64,
    units: Vec<usize>,
    r: Option<TwostepReplicate>,
    joint: JointReplicate,
)
    requires
        call_ensures(iteration_seed, (seed, b), own),
        call_ensures(stratified_sample, (c, own), units),
        call_ensures(twostep_replicate, (y, d, control_mask, x, c, seed, b), r),
        call_ensures(joint_replicate, (y, d, x, c, seed, b), joint),
    ensures
        own == (seed + b) % 0x1_0000_0000_0000_0000,
        r matches Some(s) ==> s.units@ == units@,
        joint.units@ == units@,
{
}

/// The covariates of a replicate are, for every period and every unit drawn, those of
/// that unit in that period.
pub proof fn law_replicates_bring_covariates(
    y: &Matrix<u64>,
    d: &Matrix<u64>,
    control_mask: &Matrix<u8>,
    x: &Matrix<u64>,
    units: Vec<usize>,
    r: Option<TwostepReplicate>,
    joint: JointReplicate,
    t: usize,
    j: usize,
    k: usize,
)
    requires
        call_ensures(twostep_replicate_of, (y, d, control_mask, Some(x), units), r),
        call_ensures(joint_replicate_of, (y, d, Some(x), units), joint),
        t < y.rows,
        j < units@.len(),
        k < x.cols,
    ensures
        r matches Some(s) ==> s.x is Some && s.x->0.cols == x.cols && s.x->0.at(
            t * units@.len() + j,
            k as int,
        ) == x.at(t * y.cols + units@[j as int], k as int),
        joint.x is Some,
        joint.x->0.cols == x.cols,
        joint.x->0.at(t * units@.len() + j, k as int) == x.at(
            t * y.cols + units@[j as int],
            k as int,
        ),
{
    let n = units@.len() as int;
    assert(joint.x->0.at(offset(n, t as int, j as int), k as int) == x.at(
        offset(y.cols as int, t as int, units@[j as int] as int),
        k as int,
    ));
    if let Some(s) = r {
        assert(s.x->0.at(offset(n, t as int, j as int), k as int) == x.at(
            offset(y.cols as int, t as int, units@[j as int] as int),
            k as int,
        ));
    }
}

} // verus!

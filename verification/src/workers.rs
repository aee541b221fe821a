//! Evaluation of the criterion with the cells shared out among workers.
//!
//! Cells are handed out in consecutive chunks, and what came of the chunks is
//! merged in their order, whatever the order in which they were finished.
use crate::alternating::{
    CovariateFit, Dot, TwostepModel, TwostepProximal, WeightedMean,
};
use crate::arithmetic::{Binary, CellEffect, PairSummary, Summary, TimeDecay};
use crate::bits;
use crate::crossval::{cells_in, scan_cells, scanned};
use crate::loocv::{chunk_size, merge_chunks, merged_of, ScoreResult, ScoreScan};
use crate::matrix::Matrix;
use crate::tuning::Lambdas;
use crate::twostep::{TwostepMethod, TwostepPanel};
use vstd::prelude::*;

verus! {

/// Cells of all chunks, in order.
pub open spec fn rejoined(chunks: Seq<Vec<(usize, usize)>>) -> Seq<(usize, usize)>
    decreases chunks.len(),
{
    if chunks.len() == 0 {
        Seq::empty()
    } else {
        rejoined(chunks.drop_last()) + chunks.last()@
    }
}

/// `chunks` are consecutive parts of `cells`, all of the given size but for the
/// last, which may be smaller but not empty.
pub open spec fn splits(
    chunks: Seq<Vec<(usize, usize)>>,
    cells: Seq<(usize, usize)>,
    size: usize,
) -> bool {
    &&& rejoined(chunks) == cells
    &&& forall|k: int|
        0 <= k < chunks.len() ==> 0 < (#[trigger] chunks[k])@.len() <= size && (k < chunks.len() - 1
            ==> chunks[k]@.len() == size)
}

/// Splits cells into chunks of a given size.
pub fn split_cells(cells: &Vec<(usize, usize)>, size: usize) -> (r: Vec<Vec<(usize, usize)>>)
    requires
        size > 0,
    ensures
        splits(r@, cells@, size),
{
    let mut chunks: Vec<Vec<(usize, usize)>> = Vec::new();
    let mut from: usize = 0;
    while from < cells.len()
        invariant
            size > 0,
            from <= cells@.len(),
            rejoined(chunks@) == cells@.take(from as int),
            forall|k: int|
                0 <= k < chunks@.len() ==> 0 < (#[trigger] chunks@[k])@.len() <= size && (k
                    < chunks@.len() - 1 || from < cells@.len() ==> chunks@[k]@.len() == size),
        decreases cells@.len() - from,
    {
        let upto: usize = if cells.len() - from <= size {
            cells.len()
        } else {
            from + size
        };
        let mut chunk: Vec<(usize, usize)> = Vec::new();
        let mut k: usize = from;
        while k < upto
            invariant
                from <= k <= upto,
                upto <= cells@.len(),
                chunk@ == cells@.subrange(from as int, k as int),
            decreases upto - k,
        {
            chunk.push(cells[k]);
            k = k + 1;
        }
        let ghost before = chunks@;
        chunks.push(chunk);
        proof {
            assert(chunks@.drop_last() =~= before);
            assert(cells@.take(upto as int) =~= cells@.take(from as int) + cells@.subrange(
                from as int,
                upto as int,
            ));
        }
        from = upto;
    }
    assert(cells@.take(from as int) =~= cells@);
    chunks
}

/// What a chunk adds to the merger: the cells that entered the sum, and the cell
/// whose fit failed.
pub open spec fn chunk_outcome(scan: ScoreScan) -> (usize, Option<(usize, usize)>) {
    (
        scan.n_valid,
        match scan.stopped {
            Some(r) => r.first_failed,
            None => None,
        },
    )
}

/// What the chunks add to the merger.
pub open spec fn chunk_outcomes(scans: Seq<ScoreScan>) -> Seq<(usize, Option<(usize, usize)>)> {
    Seq::new(scans.len(), |k: int| chunk_outcome(scans[k]))
}

/// `r` is the criterion that the chunks give: infinite where a fit failed or no
/// cell entered, and otherwise their sums added up by `total`.
pub open spec fn merges<A: Fn(&Vec<u64>) -> u64>(
    r: ScoreResult,
    scans: Seq<ScoreScan>,
    total: A,
) -> bool {
    let (n_valid, first_failed) = merged_of(chunk_outcomes(scans));
    &&& r.n_valid == n_valid
    &&& r.first_failed == first_failed
    &&& if first_failed is Some || n_valid == 0 {
        r.score == bits::INFINITY
    } else {
        exists|sums: Vec<u64>|
            sums@ == Seq::new(scans.len(), |k: int| scans[k].sum) && #[trigger] call_ensures(
                total,
                (&sums,),
                r.score,
            )
    }
}

/// Merges what came of the chunks.
pub fn merge_scans<A: Fn(&Vec<u64>) -> u64>(scans: &Vec<ScoreScan>, total: &A) -> (r: ScoreResult)
    requires
        merged_of(chunk_outcomes(scans@)).0 <= usize::MAX,
        forall|sums: &Vec<u64>| #[trigger] call_requires(*total, (sums,)),
    ensures
        merges(r, scans@, *total),
{
    let mut outcomes: Vec<(usize, Option<(usize, usize)>)> = Vec::new();
    let mut sums: Vec<u64> = Vec::new();
    let mut k: usize = 0;
    while k < scans.len()
        invariant
            k <= scans@.len(),
            outcomes@ == chunk_outcomes(scans@).take(k as int),
            sums@ == Seq::new(k as nat, |j: int| scans@[j].sum),
        decreases scans@.len() - k,
    {
        let failed: Option<(usize, usize)> = match scans[k].stopped {
            Some(r) => r.first_failed,
            None => None,
        };
        outcomes.push((scans[k].n_valid, failed));
        sums.push(scans[k].sum);
        assert(sums@ =~= Seq::new((k + 1) as nat, |j: int| scans@[j].sum));
        k = k + 1;
    }
    assert(outcomes@ =~= chunk_outcomes(scans@));
    let sum: u64 = (*total)(&sums);
    assert(call_ensures(*total, (&sums,), sum));
    merge_chunks(&outcomes, sum)
}

proof fn lemma_merged_fits(scans: Seq<ScoreScan>, chunks: Seq<Vec<(usize, usize)>>)
    requires
        scans.len() == chunks.len(),
        forall|k: int|
            0 <= k < scans.len() ==> (#[trigger] scans[k]).n_valid <= chunks[k]@.len(),
    ensures
        merged_of(chunk_outcomes(scans)).0 <= rejoined(chunks).len(),
    decreases scans.len(),
{
    if scans.len() > 0 {
        let (s0, c0) = (scans.drop_last(), chunks.drop_last());
        assert forall|k: int| 0 <= k < s0.len() implies (#[trigger] s0[k]).n_valid
            <= c0[k]@.len() by {
            assert(scans[k] == s0[k]);
        }
        lemma_merged_fits(s0, c0);
        assert(chunk_outcomes(scans).drop_last() =~= chunk_outcomes(s0));
        assert(scans[scans.len() - 1].n_valid <= chunks[scans.len() - 1]@.len());
    }
}

proof fn lemma_chunks_in(chunks: Seq<Vec<(usize, usize)>>, y: &Matrix<u64>)
    requires
        cells_in(rejoined(chunks), y),
    ensures
        forall|k: int| 0 <= k < chunks.len() ==> cells_in((#[trigger] chunks[k])@, y),
    decreases chunks.len(),
{
    if chunks.len() > 0 {
        let (rest, last) = (chunks.drop_last(), chunks.last()@);
        let all = rejoined(chunks);
        assert forall|k: int| 0 <= k < rejoined(rest).len() implies (#[trigger] rejoined(rest)[k]).0
            < y.rows && rejoined(rest)[k].1 < y.cols by {
            assert(all[k] == rejoined(rest)[k]);
        }
        assert forall|k: int| 0 <= k < last.len() implies (#[trigger] last[k]).0 < y.rows
            && last[k].1 < y.cols by {
            assert(all[rejoined(rest).len() + k] == last[k]);
        }
        lemma_chunks_in(rest, y);
        assert forall|k: int| 0 <= k < chunks.len() implies cells_in((#[trigger] chunks[k])@, y) by {
            if k < rest.len() {
                assert(rest[k] == chunks[k]);
            }
        }
    }
}

/// `r` is the criterion of the twostep method at some parameters, with the cells
/// in chunks for `n_threads` workers.  Each chunk starts without a model and is
/// not given up before a fit fails.
pub open spec fn scored_in_chunks<
    R: PairSummary,
    T: TimeDecay,
    U: Binary,
    P: Binary,
    B: Binary,
    Z: Summary,
    O: Dot,
    C: WeightedMean,
    Q: CovariateFit,
    F: TwostepProximal,
    E: CellEffect<TwostepModel>,
    S: Binary,
    A: Summary,
>(
    r: ScoreResult,
    panel: &TwostepPanel,
    cells: Seq<(usize, usize)>,
    size: usize,
    lambdas: Lambdas,
    method: &TwostepMethod<R, T, U, P, B, Z, O, C, Q, F, E, S>,
    total: A,
) -> bool {
    exists|chunks: Seq<Vec<(usize, usize)>>, scans: Seq<ScoreScan>|
        {
            &&& #[trigger] splits(chunks, cells, size)
            &&& scans.len() == chunks.len()
            &&& forall|k: int|
                0 <= k < scans.len() ==> scanned(
                    #[trigger] scans[k],
                    panel,
                    chunks[k]@,
                    lambdas,
                    method,
                    bits::INFINITY,
                )
            &&& #[trigger] merges(r, scans, total)
        }
}

/// Chunks of `size` share out `n` cells among `n_threads` workers.
pub open spec fn suits(size: usize, n: nat, n_threads: usize) -> bool {
    &&& size >= 1
    &&& n_threads > 0 && n > 0 ==> size == (n + n_threads - 1) / (n_threads as int)
    &&& n_threads == 0 ==> size >= n
}

/// Criterion of the twostep method at some parameters, with the cells in chunks
/// for `n_threads` workers; `total` adds up the sums of the chunks.
pub fn loocv_score_for_params_parallel<
    R: PairSummary,
    T: TimeDecay,
    U: Binary,
    P: Binary,
    B: Binary,
    Z: Summary,
    O: Dot,
    C: WeightedMean,
    Q: CovariateFit,
    F: TwostepProximal,
    E: CellEffect<TwostepModel>,
    S: Binary,
    A: Summary,
>(
    panel: &TwostepPanel,
    cells: &Vec<(usize, usize)>,
    lambdas: Lambdas,
    n_threads: usize,
    method: &TwostepMethod<R, T, U, P, B, Z, O, C, Q, F, E, S>,
    total: &A,
) -> (r: ScoreResult)
    requires
        panel.wf(),
        cells_in(cells@, panel.y),
        method.ready(),
        forall|sums: &Vec<u64>| #[trigger] call_requires(*total, (sums,)),
    ensures
        exists|size: usize|
            {
                &&& suits(size, cells@.len(), n_threads)
                &&& #[trigger] scored_in_chunks(
                    r,
                    panel,
                    cells@,
                    size,
                    lambdas,
                    method,
                    *total,
                )
            },
{
    let size: usize = chunk_size(cells.len(), n_threads);
    let chunks: Vec<Vec<(usize, usize)>> = split_cells(cells, size);
    proof {
        lemma_chunks_in(chunks@, panel.y);
    }
    let mut scans: Vec<ScoreScan> = Vec::new();
    let mut k: usize = 0;
    while k < chunks.len()
        invariant
            panel.wf(),
            method.ready(),
            forall|j: int| 0 <= j < chunks@.len() ==> cells_in((#[trigger] chunks@[j])@, panel.y),
            k <= chunks@.len(),
            k == scans@.len(),
            forall|j: int|
                0 <= j < k ==> scanned(
                    #[trigger] scans@[j],
                    panel,
                    chunks@[j]@,
                    lambdas,
                    method,
                    bits::INFINITY,
                ) && scans@[j].n_valid <= chunks@[j]@.len(),
        decreases chunks@.len() - k,
    {
        let scan: ScoreScan = scan_cells(
            panel,
            &chunks[k],
            lambdas,
            method,
            bits::INFINITY,
        );
        scans.push(scan);
        k = k + 1;
    }
    proof {
        lemma_merged_fits(scans@, chunks@);
    }
    let r: ScoreResult = merge_scans(&scans, total);
    assert(splits(chunks@, cells@, size));
    assert(suits(size, cells@.len(), n_threads));
    assert(merges(r, scans@, *total));
    assert(scored_in_chunks(
        r,
        panel,
        cells@,
        size,
        lambdas,
        method,
        *total,
    ));
    r
}

/// One more chunk adds its cells at the end.
pub proof fn law_chunks_are_joined(chunks: Seq<Vec<(usize, usize)>>, chunk: Vec<(usize, usize)>)
    ensures
        rejoined(Seq::<Vec<(usize, usize)>>::empty()).len() == 0,
        rejoined(chunks.push(chunk)) == rejoined(chunks) + chunk@,
{
    assert(chunks.push(chunk).drop_last() =~= chunks);
}

proof fn lemma_joined_length(chunks: Seq<Vec<(usize, usize)>>, size: int, n: int)
    requires
        0 <= n <= chunks.len(),
        forall|k: int| 0 <= k < n ==> (#[trigger] chunks[k])@.len() == size,
    ensures
        rejoined(chunks.take(n)).len() == n * size,
    decreases n,
{
    if n > 0 {
        lemma_joined_length(chunks, size, n - 1);
        assert(chunks.take(n).drop_last() =~= chunks.take(n - 1));
        assert(chunks[n - 1]@.len() == size);
        assert(n * size == (n - 1) * size + size) by (nonlinear_arith);
    } else {
        assert(0 * size == 0);
    }
}

proof fn lemma_joined_part(chunks: Seq<Vec<(usize, usize)>>, k: int, j: int)
    requires
        0 <= k < chunks.len(),
        0 <= j < chunks[k]@.len(),
    ensures
        rejoined(chunks.take(k)).len() + j < rejoined(chunks).len(),
        rejoined(chunks)[rejoined(chunks.take(k)).len() + j] == chunks[k]@[j],
    decreases chunks.len() - k,
{
    let rest = chunks.drop_last();
    if k == chunks.len() - 1 {
        assert(chunks.take(k) =~= rest);
    } else {
        lemma_joined_part_in(chunks, k, j, chunks.len() as int);
        assert(chunks.take(chunks.len() as int) =~= chunks);
    }
}

proof fn lemma_joined_part_in(chunks: Seq<Vec<(usize, usize)>>, k: int, j: int, n: int)
    requires
        0 <= k < n <= chunks.len(),
        0 <= j < chunks[k]@.len(),
    ensures
        rejoined(chunks.take(k)).len() + j < rejoined(chunks.take(n)).len(),
        rejoined(chunks.take(n))[rejoined(chunks.take(k)).len() + j] == chunks[k]@[j],
    decreases n,
{
    assert(chunks.take(n).drop_last() =~= chunks.take(n - 1));
    if k < n - 1 {
        lemma_joined_part_in(chunks, k, j, n - 1);
    }
}

/// Cells are shared out completely and in order: cell `j` of chunk `k` is cell
/// `k * size + j` of all, and every chunk but the last is full.
pub proof fn law_every_cell_is_shared_out(
    cells: &Vec<(usize, usize)>,
    size: usize,
    r: Vec<Vec<(usize, usize)>>,
    k: int,
    j: int,
)
    requires
        call_ensures(split_cells, (cells, size), r),
        0 <= k < r@.len(),
        0 <= j < r@[k]@.len(),
    ensures
        rejoined(r@) == cells@,
        0 <= k * size + j < cells@.len(),
        r@[k]@[j] == cells@[k * size + j],
        k < r@.len() - 1 ==> r@[k]@.len() == size,
        k == r@.len() - 1 ==> k * size + r@[k]@.len() == cells@.len(),
{
    lemma_joined_length(r@, size as int, k);
    lemma_joined_part(r@, k, j);
    assert(0 <= k * size) by (nonlinear_arith)
        requires
            k >= 0,
            size >= 0,
    ;
    if k == r@.len() - 1 {
        assert(r@.take(k) =~= r@.drop_last());
    }
}

/// What the chunks gave is merged in their order: with the cells that each counted
/// and its failure, and with all of their sums added up.
pub proof fn law_chunks_are_merged<A: Fn(&Vec<u64>) -> u64>(
    r: ScoreResult,
    scans: Seq<ScoreScan>,
    total: A,
    chunks: &Vec<(usize, Option<(usize, usize)>)>,
    sum: u64,
    merged: ScoreResult,
)
    requires
        merges(r, scans, total),
        call_ensures(merge_chunks, (chunks, sum), merged),
        chunks@.len() == scans.len(),
        forall|k: int|
            0 <= k < scans.len() ==> (#[trigger] chunks@[k]).0 == scans[k].n_valid && chunks@[k].1
                == match scans[k].stopped {
                Some(s) => s.first_failed,
                None => None,
            },
    ensures
        r.n_valid == merged.n_valid,
        r.first_failed == merged.first_failed,
        r.first_failed is Some || r.n_valid == 0 ==> r.score == bits::INFINITY,
        r.first_failed is None && r.n_valid > 0 ==> exists|sums: Vec<u64>|
            {
                &&& sums@.len() == scans.len()
                &&& forall|k: int| 0 <= k < scans.len() ==> #[trigger] sums@[k] == scans[k].sum
                &&& #[trigger] call_ensures(total, (&sums,), r.score)
            },
{
    assert(chunk_outcomes(scans) =~= chunks@);
}

proof fn lemma_chunks_counted<
    R: PairSummary,
    T: TimeDecay,
    U: Binary,
    P: Binary,
    B: Binary,
    Z: Summary,
    O: Dot,
    C: WeightedMean,
    Q: CovariateFit,
    F: TwostepProximal,
    E: CellEffect<TwostepModel>,
    S: Binary,
>(
    panel: &TwostepPanel,
    chunks: Seq<Vec<(usize, usize)>>,
    lambdas: Lambdas,
    method: &TwostepMethod<R, T, U, P, B, Z, O, C, Q, F, E, S>,
    scans: Seq<ScoreScan>,
    n: int,
)
    requires
        0 <= n <= scans.len(),
        scans.len() == chunks.len(),
        forall|k: int|
            0 <= k < scans.len() ==> scanned(
                #[trigger] scans[k],
                panel,
                chunks[k]@,
                lambdas,
                method,
                bits::INFINITY,
            ),
    ensures
        ({
            let (counted, failed) = merged_of(chunk_outcomes(scans).take(n));
            failed is None ==> counted == rejoined(chunks.take(n)).len()
        }),
    decreases n,
{
    if n > 0 {
        let k = n - 1;
        lemma_chunks_counted(panel, chunks, lambdas, method, scans, k);
        assert(chunk_outcomes(scans).take(n).drop_last() =~= chunk_outcomes(scans).take(k));
        assert(chunk_outcomes(scans).take(n).last() == chunk_outcome(scans[k]));
        assert(chunks.take(n).drop_last() =~= chunks.take(k));
        assert(chunks.take(n).last() == chunks[k]);
        crate::crossval::lemma_scanned_counts(
            scans[k],
            panel,
            &chunks[k],
            lambdas,
            method,
            bits::INFINITY,
        );
    }
}

/// An evaluation in chunks that reports no failure counted every one of the cells,
/// however they were shared out.
pub proof fn law_chunks_count_every_cell<
    R: PairSummary,
    T: TimeDecay,
    U: Binary,
    P: Binary,
    B: Binary,
    Z: Summary,
    O: Dot,
    C: WeightedMean,
    Q: CovariateFit,
    F: TwostepProximal,
    E: CellEffect<TwostepModel>,
    S: Binary,
    A: Summary,
>(
    r: ScoreResult,
    panel: &TwostepPanel,
    cells: &Vec<(usize, usize)>,
    size: usize,
    lambdas: Lambdas,
    method: &TwostepMethod<R, T, U, P, B, Z, O, C, Q, F, E, S>,
    total: A,
)
    requires
        scored_in_chunks(r, panel, cells@, size, lambdas, method, total),
    ensures
        r.first_failed is None ==> r.n_valid == cells@.len(),
        r.first_failed is Some ==> r.score == bits::INFINITY,
{
    let (chunks, scans) = choose|chunks: Seq<Vec<(usize, usize)>>, scans: Seq<ScoreScan>|
        {
            &&& #[trigger] splits(chunks, cells@, size)
            &&& scans.len() == chunks.len()
            &&& forall|k: int|
                0 <= k < scans.len() ==> scanned(
                    #[trigger] scans[k],
                    panel,
                    chunks[k]@,
                    lambdas,
                    method,
                    bits::INFINITY,
                )
            &&& #[trigger] merges(r, scans, total)
        };
    let n = scans.len() as int;
    lemma_chunks_counted(panel, chunks, lambdas, method, scans, n);
    assert(chunk_outcomes(scans).take(n) =~= chunk_outcomes(scans));
    assert(chunks.take(n) =~= chunks);
}

/// Chunks share out cells among workers: no more of them than workers, and no
/// larger than needed.
pub proof fn law_chunks_suit_workers(size: usize, n: nat, n_threads: usize)
    requires
        suits(size, n, n_threads),
    ensures
        size >= 1,
        n_threads > 0 && n > 0 ==> size * n_threads >= n && (size - 1) * n_threads < n,
        n_threads == 0 ==> size >= n,
{
    if n_threads > 0 && n > 0 {
        let (m, d) = (n as int, n_threads as int);
        vstd::arithmetic::div_mod::lemma_fundamental_div_mod(m + d - 1, d);
        let q = (m + d - 1) / d;
        assert(d * q == q * d) by (nonlinear_arith);
        assert((q - 1) * d == q * d - d) by (nonlinear_arith);
    }
}

} // verus!

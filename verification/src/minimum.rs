//! What a search finds: the minimum of the criterion up to the tolerance, and
//! among what is tied with it the simplest parameters.
//!
//! Nothing here is executed; these are laws on how the searches select.
use crate::bits;
use crate::search::{
    differences, improved, law_reduction_selects, reduced, selects, simpler, Evaluation,
    NEG_TIE_TOL, TIE_TOL,
};
use crate::tuning::Lambdas;
use vstd::prelude::*;

verus! {

/// Score of an evaluation, as a multiple of the smallest positive number.
#[verifier::opaque]
pub open spec fn score_of(e: Evaluation) -> int {
    bits::signed_numerator(e.candidate.score)
}

/// Tolerance within which scores are tied, in the same unit.
#[verifier::opaque]
pub open spec fn tolerance() -> int {
    bits::signed_numerator(TIE_TOL)
}

/// The score of an evaluation is a finite number.
pub open spec fn scored(e: Evaluation) -> bool {
    bits::finite(e.candidate.score)
}

/// The difference of two scores exceeds the tolerance exactly where the scores
/// differ by more.
pub open spec fn measures(diff: u64, new: Evaluation, best: Evaluation) -> bool {
    scored(best) && scored(new) ==> {
        &&& bits::lt(diff, NEG_TIE_TOL) <==> score_of(new) < score_of(best) - tolerance()
        &&& bits::lt(TIE_TOL, diff) <==> score_of(new) > score_of(best) + tolerance()
    }
}

/// Each difference measures the scores that are compared.
pub open spec fn faithful(start: Evaluation, evals: Seq<Evaluation>, diffs: Seq<u64>) -> bool {
    forall|k: int|
        0 <= k < evals.len() ==> measures(
            diffs[k],
            #[trigger] evals[k],
            reduced(start, evals.take(k), diffs.take(k)),
        )
}

proof fn lemma_improved(best: Evaluation, new: Evaluation, diff: u64)
    requires
        measures(diff, new, best),
    ensures
        !scored(new) ==> improved(best, new, diff) == best,
        scored(new) && !scored(best) ==> improved(best, new, diff) == new,
        scored(new) && scored(best) ==> improved(best, new, diff) == if score_of(new) < score_of(
            best,
        ) - tolerance() {
            new
        } else if score_of(new) > score_of(best) + tolerance() {
            best
        } else if simpler(new.candidate.lambdas, best.candidate.lambdas) {
            new
        } else {
            best
        },
{
    lemma_tolerance();
}

proof fn lemma_tolerance()
    ensures
        tolerance() > 0,
{
    reveal(tolerance);
    bits::law_order_is_numeric(bits::ZERO, TIE_TOL);
    assert(bits::signed_numerator(bits::ZERO) == 0) by {
        assert(bits::significand(bits::ZERO) == 0);
        assert(bits::numerator(bits::ZERO) == 0 * vstd::arithmetic::power2::pow2(
            (bits::exponent(bits::ZERO) - 1) as nat,
        ));
    }
}

proof fn lemma_faithful_prefix(start: Evaluation, evals: Seq<Evaluation>, diffs: Seq<u64>)
    requires
        evals.len() > 0,
        diffs.len() == evals.len(),
        faithful(start, evals, diffs),
    ensures
        faithful(start, evals.drop_last(), diffs.drop_last()),
{
    let (e0, d0) = (evals.drop_last(), diffs.drop_last());
    assert forall|k: int| 0 <= k < e0.len() implies measures(
        d0[k],
        #[trigger] e0[k],
        reduced(start, e0.take(k), d0.take(k)),
    ) by {
        assert(e0.take(k) =~= evals.take(k));
        assert(d0.take(k) =~= diffs.take(k));
        assert(evals[k] == e0[k]);
    }
}

proof fn lemma_nears_minimum(
    start: Evaluation,
    evals: Seq<Evaluation>,
    diffs: Seq<u64>,
    k: int,
)
    requires
        diffs.len() == evals.len(),
        start.candidate.score == bits::INFINITY,
        faithful(start, evals, diffs),
        0 <= k < evals.len(),
        scored(evals[k]),
    ensures
        scored(reduced(start, evals, diffs)),
        score_of(reduced(start, evals, diffs)) <= score_of(evals[k]) + evals.len() * tolerance(),
    decreases evals.len(),
{
    let (e0, d0) = (evals.drop_last(), diffs.drop_last());
    let n = evals.len() - 1;
    assert(evals.take(n) =~= e0);
    assert(diffs.take(n) =~= d0);
    lemma_faithful_prefix(start, evals, diffs);
    lemma_tolerance();
    assert((n + 1) * tolerance() == n * tolerance() + tolerance()) by (nonlinear_arith);
    assert(n * tolerance() >= 0) by (nonlinear_arith)
        requires
            n >= 0,
            tolerance() > 0,
    ;
    let best = reduced(start, e0, d0);
    let new = evals[n];
    assert(reduced(start, evals, diffs) == improved(best, new, diffs[n]));
    assert(measures(diffs[n], new, best));
    lemma_improved(best, new, diffs[n]);
    if k < n {
        assert(e0[k] == evals[k]);
        lemma_nears_minimum(start, e0, d0, k);
    }
}

/// An evaluation is tied with the one of the least score.
pub open spec fn tied(e: Evaluation, least: Evaluation) -> bool {
    scored(e) && score_of(e) <= score_of(least) + tolerance()
}

/// An evaluation is worse, by more than the tolerance, than all that are tied
/// with the least.
pub open spec fn beyond(e: Evaluation, evals: Seq<Evaluation>, least: Evaluation) -> bool {
    scored(e) ==> forall|k: int|
        0 <= k < evals.len() && tied(#[trigger] evals[k], least) ==> score_of(e) > score_of(
            evals[k],
        ) + tolerance()
}

/// Evaluation `m` has the least score, and every other is tied with it or worse
/// than all that are.
pub open spec fn clustered(evals: Seq<Evaluation>, m: int) -> bool {
    &&& 0 <= m < evals.len()
    &&& scored(evals[m])
    &&& forall|k: int|
        0 <= k < evals.len() && scored(#[trigger] evals[k]) ==> score_of(evals[m]) <= score_of(
            evals[k],
        )
    &&& forall|k: int|
        0 <= k < evals.len() ==> tied(#[trigger] evals[k], evals[m]) || beyond(
            evals[k],
            evals,
            evals[m],
        )
}

/// Evaluation `j` is the first of the simplest among the first `n` evaluations
/// that are tied with evaluation `m`.
pub open spec fn simplest(evals: Seq<Evaluation>, m: int, n: int, j: int) -> bool {
    &&& 0 <= j < n
    &&& tied(evals[j], evals[m])
    &&& forall|k: int|
        0 <= k < n && tied(#[trigger] evals[k], evals[m]) ==> !simpler(
            evals[k].candidate.lambdas,
            evals[j].candidate.lambdas,
        ) && (evals[k].candidate.lambdas == evals[j].candidate.lambdas ==> j <= k)
}

proof fn lemma_simpler_is_total(a: Lambdas, b: Lambdas, c: Lambdas)
    ensures
        !simpler(a, a),
        simpler(a, b) ==> !simpler(b, a),
        simpler(a, b) && simpler(b, c) ==> simpler(a, c),
        a == b || simpler(a, b) || simpler(b, a),
{
    bits::law_total_order(a.nn, b.nn);
    bits::law_total_order(a.time, b.time);
    bits::law_total_order(a.unit, b.unit);
    bits::law_total_order(b.nn, c.nn);
    bits::law_total_order(b.time, c.time);
    bits::law_total_order(b.unit, c.unit);
}

/// After `n` evaluations the incumbent is the simplest of those that are tied
/// with the least, where there is one, and worse than all of them otherwise.
spec fn holds_simplest(evals: Seq<Evaluation>, m: int, n: int, best: Evaluation) -> bool {
    ||| exists|j: int| #[trigger] simplest(evals, m, n, j) && best == evals[j]
    ||| beyond(best, evals, evals[m]) && forall|k: int|
        0 <= k < n ==> !tied(#[trigger] evals[k], evals[m])
}

proof fn lemma_step_tied(evals: Seq<Evaluation>, m: int, n: int, best: Evaluation, diff: u64)
    requires
        clustered(evals, m),
        0 <= n < evals.len(),
        tied(evals[n], evals[m]),
        holds_simplest(evals, m, n, best),
        measures(diff, evals[n], best),
    ensures
        holds_simplest(evals, m, n + 1, improved(best, evals[n], diff)),
{
    let new = evals[n];
    lemma_improved(best, new, diff);
    let a = new.candidate.lambdas;
    lemma_simpler_is_total(a, a, a);
    if exists|j: int| #[trigger] simplest(evals, m, n, j) && best == evals[j] {
        let j = choose|j: int| #[trigger] simplest(evals, m, n, j) && best == evals[j];
        let b = best.candidate.lambdas;
        assert(score_of(evals[m]) <= score_of(new));
        assert(score_of(evals[m]) <= score_of(best));
        if simpler(a, b) {
            assert forall|k: int|
                0 <= k < n + 1 && tied(#[trigger] evals[k], evals[m]) implies !simpler(
                evals[k].candidate.lambdas,
                a,
            ) && (evals[k].candidate.lambdas == a ==> n <= k) by {
                lemma_simpler_is_total(evals[k].candidate.lambdas, a, b);
            }
            assert(simplest(evals, m, n + 1, n));
        } else {
            assert(simplest(evals, m, n + 1, j));
        }
    } else {
        assert(simplest(evals, m, n + 1, n));
    }
}

proof fn lemma_step_beyond(evals: Seq<Evaluation>, m: int, n: int, best: Evaluation, diff: u64)
    requires
        clustered(evals, m),
        0 <= n < evals.len(),
        !tied(evals[n], evals[m]),
        holds_simplest(evals, m, n, best),
        measures(diff, evals[n], best),
    ensures
        holds_simplest(evals, m, n + 1, improved(best, evals[n], diff)),
{
    let new = evals[n];
    lemma_improved(best, new, diff);
    assert(beyond(new, evals, evals[m]));
    if exists|j: int| #[trigger] simplest(evals, m, n, j) && best == evals[j] {
        let j = choose|j: int| #[trigger] simplest(evals, m, n, j) && best == evals[j];
        assert(tied(evals[j], evals[m]));
        lemma_tolerance();
        assert(simplest(evals, m, n + 1, j));
    }
}

proof fn lemma_prefix(
    start: Evaluation,
    evals: Seq<Evaluation>,
    diffs: Seq<u64>,
    m: int,
    n: int,
)
    requires
        diffs.len() == evals.len(),
        start.candidate.score == bits::INFINITY,
        faithful(start, evals, diffs),
        clustered(evals, m),
        0 <= n <= evals.len(),
    ensures
        holds_simplest(evals, m, n, reduced(start, evals.take(n), diffs.take(n))),
    decreases n,
{
    if n > 0 {
        lemma_prefix(start, evals, diffs, m, n - 1);
        let k = n - 1;
        let best = reduced(start, evals.take(k), diffs.take(k));
        assert(evals.take(n).drop_last() =~= evals.take(k));
        assert(diffs.take(n).drop_last() =~= diffs.take(k));
        assert(reduced(start, evals.take(n), diffs.take(n)) == improved(best, evals[k], diffs[k]));
        assert(measures(diffs[k], evals[k], best));
        if tied(evals[k], evals[m]) {
            lemma_step_tied(evals, m, k, best, diffs[k]);
        } else {
            lemma_step_beyond(evals, m, k, best, diffs[k]);
        }
    } else {
        assert(reduced(start, evals.take(0), diffs.take(0)) == start);
        assert(!scored(start));
    }
}

proof fn lemma_simplest_minimum(
    start: Evaluation,
    evals: Seq<Evaluation>,
    diffs: Seq<u64>,
    m: int,
) -> (j: int)
    requires
        diffs.len() == evals.len(),
        start.candidate.score == bits::INFINITY,
        faithful(start, evals, diffs),
        clustered(evals, m),
    ensures
        simplest(evals, m, evals.len() as int, j),
        reduced(start, evals, diffs) == evals[j],
{
    let n = evals.len() as int;
    lemma_tolerance();
    lemma_prefix(start, evals, diffs, m, n);
    assert(evals.take(n) =~= evals);
    assert(diffs.take(n) =~= diffs);
    assert(tied(evals[m], evals[m]));
    let j = choose|j: int|
        #[trigger] simplest(evals, m, n, j) && reduced(start, evals, diffs) == evals[j];
    j
}

/// What `given` records of `eval`: the same, or that the parameters were given
/// up at a score that is worse than all that are tied with the least, as their
/// full score is.
pub open spec fn pruned(
    eval: Evaluation,
    given: Evaluation,
    evals: Seq<Evaluation>,
    least: Evaluation,
) -> bool {
    given == eval || (beyond(eval, evals, least) && beyond(given, evals, least))
}

proof fn lemma_pruning(
    start: Evaluation,
    evals: Seq<Evaluation>,
    diffs: Seq<u64>,
    given: Seq<Evaluation>,
    given_diffs: Seq<u64>,
    m: int,
)
    requires
        diffs.len() == evals.len(),
        given.len() == evals.len(),
        given_diffs.len() == evals.len(),
        start.candidate.score == bits::INFINITY,
        faithful(start, evals, diffs),
        faithful(start, given, given_diffs),
        clustered(evals, m),
        forall|k: int|
            0 <= k < evals.len() ==> pruned(#[trigger] evals[k], given[k], evals, evals[m]),
    ensures
        reduced(start, given, given_diffs) == reduced(start, evals, diffs),
{
    lemma_tolerance();
    let n = evals.len() as int;
    let least = evals[m];
    assert(tied(least, least));
    assert forall|k: int| 0 <= k < n implies (tied(#[trigger] given[k], least) ==> given[k]
        == evals[k]) && (tied(evals[k], least) ==> given[k] == evals[k]) by {
        assert(pruned(evals[k], given[k], evals, least));
        if given[k] != evals[k] {
            if scored(given[k]) {
                assert(score_of(given[k]) > score_of(evals[m]) + tolerance());
            }
            if scored(evals[k]) {
                assert(score_of(evals[k]) > score_of(evals[m]) + tolerance());
            }
        }
    }
    assert(given[m] == least);
    assert(clustered(given, m)) by {
        assert forall|k: int| 0 <= k < n && scored(#[trigger] given[k]) implies score_of(least)
            <= score_of(given[k]) by {
            assert(pruned(evals[k], given[k], evals, least));
            if given[k] != evals[k] {
                assert(score_of(given[k]) > score_of(evals[m]) + tolerance());
            }
        }
        assert forall|k: int| 0 <= k < n implies tied(#[trigger] given[k], least) || beyond(
            given[k],
            given,
            least,
        ) by {
            assert(pruned(evals[k], given[k], evals, least));
            if !tied(given[k], least) {
                assert(beyond(given[k], evals, least));
                if scored(given[k]) {
                    assert forall|i: int|
                        0 <= i < n && tied(#[trigger] given[i], least) implies score_of(
                        given[k],
                    ) > score_of(given[i]) + tolerance() by {
                        assert(tied(evals[i], least));
                    }
                }
            }
        }
    }
    let a = lemma_simplest_minimum(start, evals, diffs, m);
    let b = lemma_simplest_minimum(start, given, given_diffs, m);
    assert(given[b] == evals[b]);
    assert(tied(evals[b], least));
    assert(given[a] == evals[a]);
    assert(tied(given[a], least));
    lemma_simpler_is_total(
        evals[a].candidate.lambdas,
        evals[b].candidate.lambdas,
        evals[a].candidate.lambdas,
    );
}

/// The difference that `subtract` gives of two of the scores measures them.
pub open spec fn subtracts<S: Fn(u64, u64) -> u64>(subtract: S, evals: Seq<Evaluation>) -> bool {
    forall|i: int, j: int, diff: u64|
        0 <= i < evals.len() && 0 <= j < evals.len() && #[trigger] call_ensures(
            subtract,
            (evals[i].candidate.score, evals[j].candidate.score),
            diff,
        ) ==> measures(diff, evals[i], evals[j])
}

proof fn lemma_faithful<S: Fn(u64, u64) -> u64>(
    start: Evaluation,
    evals: Seq<Evaluation>,
    diffs: Seq<u64>,
    subtract: S,
)
    requires
        start.candidate.score == bits::INFINITY,
        differences(subtract, start, evals, diffs),
        subtracts(subtract, evals),
    ensures
        faithful(start, evals, diffs),
{
    assert forall|k: int| 0 <= k < evals.len() implies measures(
        diffs[k],
        #[trigger] evals[k],
        reduced(start, evals.take(k), diffs.take(k)),
    ) by {
        let best = reduced(start, evals.take(k), diffs.take(k));
        law_reduction_selects(start, evals.take(k), diffs.take(k));
        assert(call_ensures(subtract, (evals[k].candidate.score, best.candidate.score), diffs[k]));
        if best == start {
            assert(!scored(best));
        } else {
            let j = choose|j: int| 0 <= j < k && evals.take(k)[j] == best;
            assert(evals[j] == best);
        }
    }
}

/// A search comes near the minimum whatever the scores: what it selects exceeds
/// no other score by more than one tolerance per evaluation.
pub proof fn law_search_nears_minimum<S: Fn(u64, u64) -> u64>(
    r: Evaluation,
    start: Evaluation,
    evals: Seq<Evaluation>,
    subtract: S,
    k: int,
)
    requires
        start.candidate.score == bits::INFINITY,
        selects(r, start, evals, subtract),
        subtracts(subtract, evals),
        0 <= k < evals.len(),
        scored(evals[k]),
    ensures
        scored(r),
        score_of(r) <= score_of(evals[k]) + evals.len() * tolerance(),
{
    let diffs = choose|diffs: Seq<u64>| #[trigger]
        differences(subtract, start, evals, diffs) && r == reduced(start, evals, diffs);
    lemma_faithful(start, evals, diffs, subtract);
    lemma_nears_minimum(start, evals, diffs, k);
}

/// A search finds the minimum up to the tolerance: where every score is tied
/// with the least or worse than all that are, it selects one that is tied, and
/// of those the first of the simplest.  So scores that differ by rounding alone
/// do not decide.
pub proof fn law_simplest_minimum_wins<S: Fn(u64, u64) -> u64>(
    r: Evaluation,
    start: Evaluation,
    evals: Seq<Evaluation>,
    subtract: S,
    m: int,
)
    requires
        start.candidate.score == bits::INFINITY,
        selects(r, start, evals, subtract),
        subtracts(subtract, evals),
        clustered(evals, m),
    ensures
        exists|j: int| #[trigger] simplest(evals, m, evals.len() as int, j) && r == evals[j],
        forall|k: int|
            0 <= k < evals.len() && scored(#[trigger] evals[k]) ==> score_of(r) <= score_of(
                evals[k],
            ) + tolerance(),
{
    let diffs = choose|diffs: Seq<u64>| #[trigger]
        differences(subtract, start, evals, diffs) && r == reduced(start, evals, diffs);
    lemma_faithful(start, evals, diffs, subtract);
    let j = lemma_simplest_minimum(start, evals, diffs, m);
    assert(simplest(evals, m, evals.len() as int, j));
}

/// Giving up parameters early does not change what a search selects: where
/// `given` records what became of each evaluation, the parameters that were
/// given up being worse than all that are tied with the least, the search over
/// `given` selects what the search over all full scores selects.
pub proof fn law_pruning_keeps_selection<S: Fn(u64, u64) -> u64>(
    r: Evaluation,
    given_r: Evaluation,
    start: Evaluation,
    evals: Seq<Evaluation>,
    given: Seq<Evaluation>,
    subtract: S,
    m: int,
)
    requires
        start.candidate.score == bits::INFINITY,
        selects(r, start, evals, subtract),
        selects(given_r, start, given, subtract),
        subtracts(subtract, evals),
        subtracts(subtract, given),
        clustered(evals, m),
        given.len() == evals.len(),
        forall|k: int|
            0 <= k < evals.len() ==> pruned(#[trigger] evals[k], given[k], evals, evals[m]),
    ensures
        given_r == r,
{
    let diffs = choose|diffs: Seq<u64>| #[trigger]
        differences(subtract, start, evals, diffs) && r == reduced(start, evals, diffs);
    let given_diffs = choose|diffs: Seq<u64>| #[trigger]
        differences(subtract, start, given, diffs) && given_r == reduced(start, given, diffs);
    lemma_faithful(start, evals, diffs, subtract);
    lemma_faithful(start, given, given_diffs, subtract);
    lemma_pruning(start, evals, diffs, given, given_diffs, m);
}

} // verus!

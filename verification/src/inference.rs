//! From cell effects to estimates, and from estimates to intervals.
use crate::bits;
use crate::bootstrap::weight_of;
use vstd::prelude::*;
use vstd::relations::sorted_by;
use vstd::seq_lib::lemma_sorted_unique;

verus! {

/// Effects that survive the fit of each cell: those that were computed and are
/// finite, each with the unit of its cell, in the order of the cells.
pub open spec fn finite_effects_of(
    cells: Seq<(usize, usize)>,
    effects: Seq<Option<u64>>,
) -> Seq<(u64, usize)>
    decreases cells.len(),
{
    if cells.len() == 0 {
        Seq::empty()
    } else {
        let rest = finite_effects_of(cells.drop_last(), effects.drop_last());
        match effects.last() {
            Some(tau) => if bits::finite(tau) {
                rest.push((tau, cells.last().1))
            } else {
                rest
            },
            None => rest,
        }
    }
}

/// Pairs the finite effects with the units of their cells.
pub fn finite_effects(cells: &Vec<(usize, usize)>, effects: &Vec<Option<u64>>) -> (r: Vec<
    (u64, usize),
>)
    requires
        cells@.len() == effects@.len(),
    ensures
        r@ == finite_effects_of(cells@, effects@),
{
    let mut r: Vec<(u64, usize)> = Vec::new();
    let mut k: usize = 0;
    while k < cells.len()
        invariant
            k <= cells@.len(),
            cells@.len() == effects@.len(),
            r@ == finite_effects_of(cells@.take(k as int), effects@.take(k as int)),
        decreases cells@.len() - k,
    {
        proof {
            assert(cells@.take(k + 1).drop_last() =~= cells@.take(k as int));
            assert(effects@.take(k + 1).drop_last() =~= effects@.take(k as int));
        }
        if let Some(tau) = effects[k] {
            if bits::is_finite(tau) {
                r.push((tau, cells[k].1));
            }
        }
        k = k + 1;
    }
    proof {
        assert(cells@.take(k as int) =~= cells@);
        assert(effects@.take(k as int) =~= effects@);
    }
    r
}

/// Effects that carry weight: those whose unit has a positive finite weight,
/// each with that weight, in order.
pub open spec fn weighted_effects_of(
    effects: Seq<(u64, usize)>,
    weights: Seq<u64>,
) -> Seq<(u64, u64)>
    decreases effects.len(),
{
    if effects.len() == 0 {
        Seq::empty()
    } else {
        let rest = weighted_effects_of(effects.drop_last(), weights);
        let w = weight_of(weights, effects.last().1 as int);
        if bits::positive_finite(w) {
            rest.push((w, effects.last().0))
        } else {
            rest
        }
    }
}

/// Pairs each effect with the weight of its unit, leaving out units whose
/// weight is missing, not positive or not finite.
pub fn weighted_effects(effects: &Vec<(u64, usize)>, weights: &Vec<u64>) -> (r: Vec<(u64, u64)>)
    ensures
        r@ == weighted_effects_of(effects@, weights@),
{
    let mut r: Vec<(u64, u64)> = Vec::new();
    let mut k: usize = 0;
    while k < effects.len()
        invariant
            k <= effects@.len(),
            r@ == weighted_effects_of(effects@.take(k as int), weights@),
        decreases effects@.len() - k,
    {
        proof {
            assert(effects@.take(k + 1).drop_last() =~= effects@.take(k as int));
        }
        let (tau, unit) = effects[k];
        let w: u64 = if unit < weights.len() {
            weights[unit]
        } else {
            bits::ZERO
        };
        if bits::is_positive_finite(w) {
            r.push((w, tau));
        }
        k = k + 1;
    }
    proof {
        assert(effects@.take(k as int) =~= effects@);
    }
    r
}

/// What an average treatment effect is computed from.
#[derive(Debug)]
pub enum Aggregation {
    /// There is nothing to average.
    Undefined,
    /// The ordinary mean of these effects.
    Mean(Vec<u64>),
    /// The mean of the effects, each weighted by the number before it; all
    /// weights are positive and finite.
    Weighted(Vec<(u64, u64)>),
}

/// Numbers of a list, where there is one.
pub open spec fn contents(v: Option<&Vec<u64>>) -> Option<Seq<u64>> {
    match v {
        Some(list) => Some(list@),
        None => None,
    }
}

impl Aggregation {
    /// This is how cell effects combine into an average.
    pub open spec fn aggregates(
        &self,
        effects: Seq<(u64, usize)>,
        weights: Option<Seq<u64>>,
    ) -> bool {
        match weights {
            Some(w) => {
                let terms = weighted_effects_of(effects, w);
                if terms.len() == 0 {
                    self is Undefined
                } else {
                    self matches Aggregation::Weighted(kept) && kept@ == terms
                }
            },
            None => if effects.len() == 0 {
                self is Undefined
            } else {
                self matches Aggregation::Mean(kept) && kept@ == effects.map_values(
                    |e: (u64, usize)| e.0,
                )
            },
        }
    }
}

/// Decides how cell effects combine into an average: an ordinary mean without
/// weights, a weighted mean over the effects that carry weight otherwise.
pub fn aggregate_att(effects: &Vec<(u64, usize)>, weights: Option<&Vec<u64>>) -> (r: Aggregation)
    ensures
        r.aggregates(effects@, contents(weights)),
{
    if effects.len() == 0 {
        return Aggregation::Undefined;
    }
    match weights {
        Some(w) => {
            let terms: Vec<(u64, u64)> = weighted_effects(effects, w);
            if terms.len() == 0 {
                Aggregation::Undefined
            } else {
                Aggregation::Weighted(terms)
            }
        },
        None => {
            let mut values: Vec<u64> = Vec::new();
            let mut k: usize = 0;
            while k < effects.len()
                invariant
                    k <= effects@.len(),
                    values@ == effects@.map_values(|e: (u64, usize)| e.0).take(k as int),
                decreases effects@.len() - k,
            {
                values.push(effects[k].0);
                k = k + 1;
            }
            assert(values@ =~= effects@.map_values(|e: (u64, usize)| e.0));
            Aggregation::Mean(values)
        },
    }
}

proof fn lemma_equal_weights(effects: Seq<(u64, usize)>, weights: Seq<u64>, w: u64)
    requires
        bits::positive_finite(w),
        forall|k: int| 0 <= k < effects.len() ==> (#[trigger] effects[k]).1 < weights.len(),
        forall|i: int| 0 <= i < weights.len() ==> #[trigger] weights[i] == w,
    ensures
        weighted_effects_of(effects, weights) == effects.map_values(
            |e: (u64, usize)| (w, e.0),
        ),
    decreases effects.len(),
{
    let all = effects.map_values(|e: (u64, usize)| (w, e.0));
    if effects.len() > 0 {
        let init = effects.drop_last();
        assert forall|k: int| 0 <= k < init.len() implies (#[trigger] init[k]).1 < weights.len() by {
            assert(init[k] == effects[k]);
        }
        lemma_equal_weights(init, weights, w);
        assert(effects[effects.len() - 1].1 < weights.len());
        assert(init.map_values(|e: (u64, usize)| (w, e.0)).push((w, effects.last().0)) =~= all);
    } else {
        assert(all =~= Seq::empty());
    }
}

/// With equal positive weights the weighted mean runs over exactly the effects
/// that the ordinary mean runs over, each with that weight.
pub proof fn law_equal_weights_keep_all(effects: Seq<(u64, usize)>, weights: Seq<u64>, w: u64)
    requires
        bits::positive_finite(w),
        forall|k: int| 0 <= k < effects.len() ==> (#[trigger] effects[k]).1 < weights.len(),
        forall|i: int| 0 <= i < weights.len() ==> #[trigger] weights[i] == w,
    ensures
        weighted_effects_of(effects, weights) == effects.map_values(
            |e: (u64, usize)| (w, e.0),
        ),
{
    lemma_equal_weights(effects, weights, w);
}

/// With positive finite weights the weighted mean runs over all effects, each
/// with the weight of its unit.
pub proof fn law_positive_weights_keep_all(effects: Seq<(u64, usize)>, weights: Seq<u64>)
    requires
        forall|k: int|
            0 <= k < effects.len() ==> (#[trigger] effects[k]).1 < weights.len()
                && bits::positive_finite(weights[effects[k].1 as int]),
    ensures
        weighted_effects_of(effects, weights) == effects.map_values(
            |e: (u64, usize)| (weights[e.1 as int], e.0),
        ),
    decreases effects.len(),
{
    let f = |e: (u64, usize)| (weights[e.1 as int], e.0);
    if effects.len() > 0 {
        let rest = effects.drop_last();
        assert forall|k: int| 0 <= k < rest.len() implies (#[trigger] rest[k]).1 < weights.len()
            && bits::positive_finite(weights[rest[k].1 as int]) by {
            assert(rest[k] == effects[k]);
        }
        law_positive_weights_keep_all(rest, weights);
        assert(effects[effects.len() - 1].1 < weights.len());
        assert(weighted_effects_of(effects, weights) =~= effects.map_values(f));
    } else {
        assert(weighted_effects_of(effects, weights) =~= effects.map_values(f));
    }
}

/// Keeps the finite estimates, in order.
pub fn finite_estimates(estimates: &Vec<u64>) -> (r: Vec<u64>)
    ensures
        r@ == estimates@.filter(|b: u64| bits::finite(b)),
{
    let ghost p = |b: u64| bits::finite(b);
    let mut r: Vec<u64> = Vec::new();
    let mut k: usize = 0;
    assert(estimates@.take(0).filter(p) =~= Seq::empty()) by {
        reveal(Seq::filter);
    }
    while k < estimates.len()
        invariant
            k <= estimates@.len(),
            p == (|b: u64| bits::finite(b)),
            r@ == estimates@.take(k as int).filter(p),
        decreases estimates@.len() - k,
    {
        proof {
            reveal(Seq::filter);
            assert(estimates@.take(k + 1).drop_last() =~= estimates@.take(k as int));
        }
        if bits::is_finite(estimates[k]) {
            r.push(estimates[k]);
        }
        k = k + 1;
    }
    proof {
        assert(estimates@.take(k as int) =~= estimates@);
    }
    r
}

/// Estimates of the replicates that produced a finite one, in the order of
/// the replicates.
pub open spec fn kept_estimates_of(outcomes: Seq<Option<u64>>) -> Seq<u64>
    decreases outcomes.len(),
{
    if outcomes.len() == 0 {
        Seq::empty()
    } else {
        let rest = kept_estimates_of(outcomes.drop_last());
        match outcomes.last() {
            Some(att) => if bits::finite(att) {
                rest.push(att)
            } else {
                rest
            },
            None => rest,
        }
    }
}

/// Collects the finite estimates of a bootstrap run.
pub fn kept_estimates(outcomes: &Vec<Option<u64>>) -> (r: Vec<u64>)
    ensures
        r@ == kept_estimates_of(outcomes@),
{
    let mut r: Vec<u64> = Vec::new();
    let mut k: usize = 0;
    while k < outcomes.len()
        invariant
            k <= outcomes@.len(),
            r@ == kept_estimates_of(outcomes@.take(k as int)),
        decreases outcomes@.len() - k,
    {
        proof {
            assert(outcomes@.take(k + 1).drop_last() =~= outcomes@.take(k as int));
        }
        if let Some(att) = outcomes[k] {
            if bits::is_finite(att) {
                r.push(att);
            }
        }
        k = k + 1;
    }
    proof {
        assert(outcomes@.take(k as int) =~= outcomes@);
    }
    r
}

/// A bootstrap run keeps no more estimates than it has replicates, all finite.
pub proof fn law_kept_estimates(outcomes: Seq<Option<u64>>)
    ensures
        kept_estimates_of(outcomes).len() <= outcomes.len(),
        forall|k: int|
            0 <= k < kept_estimates_of(outcomes).len() ==> bits::finite(
                #[trigger] kept_estimates_of(outcomes)[k],
            ),
    decreases outcomes.len(),
{
    if outcomes.len() > 0 {
        law_kept_estimates(outcomes.drop_last());
    }
}

/// What a bootstrap variance is computed from.
#[derive(Debug)]
pub enum VariancePlan {
    /// Fewer than two finite estimates: this mean, and no spread.
    Degenerate(u64),
    /// Squared deviations of these estimates from their mean, summed and
    /// divided by the denominator.
    Spread(Vec<u64>, usize),
}

/// Selects the estimates a bootstrap variance runs over and its denominator:
/// their number where `ddof` is zero, one less otherwise.
pub fn variance_plan(estimates: &Vec<u64>, ddof: u8) -> (r: VariancePlan)
    ensures
        ({
            let values = estimates@.filter(|b: u64| bits::finite(b));
            match r {
                VariancePlan::Degenerate(mean) => values.len() < 2 && mean == if values.len()
                    == 0 {
                    bits::ZERO
                } else {
                    values[0]
                },
                VariancePlan::Spread(kept, denominator) => values.len() >= 2 && kept@ == values
                    && denominator == if ddof == 0 {
                    values.len() as int
                } else {
                    values.len() - 1
                },
            }
        }),
{
    let values: Vec<u64> = finite_estimates(estimates);
    let n: usize = values.len();
    if n < 2 {
        if n == 0 {
            VariancePlan::Degenerate(bits::ZERO)
        } else {
            VariancePlan::Degenerate(values[0])
        }
    } else if ddof == 0 {
        VariancePlan::Spread(values, n)
    } else {
        VariancePlan::Spread(values, n - 1)
    }
}

/// Non-finite estimates do not change a variance: the estimates it runs over
/// are the same with and without them.
pub proof fn law_variance_ignores_non_finite(estimates: Seq<u64>)
    ensures
        estimates.filter(|b: u64| bits::finite(b)).filter(|b: u64| bits::finite(b))
            == estimates.filter(|b: u64| bits::finite(b)),
{
    let p = |b: u64| bits::finite(b);
    lemma_filter_all(estimates, p);
    lemma_filter_keeps(estimates.filter(p), p);
}

proof fn lemma_filter_all(s: Seq<u64>, p: spec_fn(u64) -> bool)
    ensures
        forall|k: int| 0 <= k < s.filter(p).len() ==> p(#[trigger] s.filter(p)[k]),
    decreases s.len(),
{
    reveal(Seq::filter);
    if s.len() > 0 {
        lemma_filter_all(s.drop_last(), p);
    }
}

proof fn lemma_filter_keeps(s: Seq<u64>, p: spec_fn(u64) -> bool)
    requires
        forall|k: int| 0 <= k < s.len() ==> p(#[trigger] s[k]),
    ensures
        s.filter(p) == s,
    decreases s.len(),
{
    reveal(Seq::filter);
    if s.len() > 0 {
        lemma_filter_keeps(s.drop_last(), p);
        assert(p(s[s.len() - 1]));
        assert(s.drop_last().push(s.last()) =~= s);
    } else {
        assert(s.filter(p) =~= s);
    }
}

proof fn lemma_filter_none(s: Seq<u64>, p: spec_fn(u64) -> bool)
    requires
        forall|k: int| 0 <= k < s.len() ==> !p(#[trigger] s[k]),
    ensures
        s.filter(p) == Seq::<u64>::empty(),
    decreases s.len(),
{
    reveal(Seq::filter);
    if s.len() > 0 {
        lemma_filter_none(s.drop_last(), p);
        assert(!p(s[s.len() - 1]));
    } else {
        assert(s.filter(p) =~= Seq::empty());
    }
}

/// `s` is in increasing order of value.
pub open spec fn ascending(s: Seq<u64>) -> bool {
    forall|i: int, j: int| 0 <= i < j < s.len() ==> !bits::lt(#[trigger] s[j], #[trigger] s[i])
}

/// `sorted` is `values` in increasing order, equal values in their original
/// order: of the finite numbers, only the two zeros are equal and differ.
pub open spec fn sorts(sorted: Seq<u64>, values: Seq<u64>) -> bool {
    &&& sorted.len() == values.len()
    &&& ascending(sorted)
    &&& sorted.to_multiset() == values.to_multiset()
    &&& sorted.filter(|b: u64| bits::zero(b)) == values.filter(|b: u64| bits::zero(b))
}

proof fn lemma_insert_keeps_zeros(s: Seq<u64>, at: int, v: u64)
    requires
        0 <= at <= s.len(),
        forall|k: int| 0 <= k < s.len() ==> bits::finite(#[trigger] s[k]),
        bits::finite(v),
        forall|k: int| at <= k < s.len() ==> bits::lt(v, #[trigger] s[k]),
    ensures
        s.insert(at, v).filter(|b: u64| bits::zero(b)) == s.push(v).filter(
            |b: u64| bits::zero(b),
        ),
        s.insert(at, v).to_multiset() == s.push(v).to_multiset(),
{
    let p = |b: u64| bits::zero(b);
    let (a, c) = (s.take(at), s.skip(at));
    assert(s =~= a + c);
    assert(s.insert(at, v) =~= a + (seq![v] + c));
    assert(s.push(v) =~= a + (c + seq![v]));
    Seq::filter_distributes_over_add(a, seq![v] + c, p);
    Seq::filter_distributes_over_add(a, c + seq![v], p);
    Seq::filter_distributes_over_add(seq![v], c, p);
    Seq::filter_distributes_over_add(c, seq![v], p);
    if p(v) {
        assert forall|k: int| 0 <= k < c.len() implies !p(#[trigger] c[k]) by {
            assert(c[k] == s[at + k]);
        }
        lemma_filter_none(c, p);
        assert(seq![v].filter(p) + Seq::<u64>::empty() =~= Seq::<u64>::empty() + seq![v].filter(
            p,
        ));
    } else {
        lemma_filter_none(seq![v], p);
        assert(Seq::<u64>::empty() + c.filter(p) =~= c.filter(p) + Seq::<u64>::empty());
    }
    vstd::seq_lib::lemma_multiset_commutative(a, seq![v] + c);
    vstd::seq_lib::lemma_multiset_commutative(a, c + seq![v]);
    vstd::seq_lib::lemma_multiset_commutative(seq![v], c);
    vstd::seq_lib::lemma_multiset_commutative(c, seq![v]);
    assert((seq![v] + c).to_multiset() =~= (c + seq![v]).to_multiset());
}

/// Sorts finite numbers by value; the sort is stable.
pub fn sort_values(values: &Vec<u64>) -> (r: Vec<u64>)
    requires
        forall|k: int| 0 <= k < values@.len() ==> bits::finite(#[trigger] values@[k]),
    ensures
        sorts(r@, values@),
{
    let mut r: Vec<u64> = Vec::new();
    let mut k: usize = 0;
    let ghost p = |b: u64| bits::zero(b);
    assert(values@.take(0) =~= r@);
    while k < values.len()
        invariant
            k <= values@.len(),
            p == (|b: u64| bits::zero(b)),
            forall|k: int| 0 <= k < values@.len() ==> bits::finite(#[trigger] values@[k]),
            forall|j: int| 0 <= j < r@.len() ==> bits::finite(#[trigger] r@[j]),
            sorts(r@, values@.take(k as int)),
        decreases values@.len() - k,
    {
        let v: u64 = values[k];
        let mut at: usize = r.len();
        while at > 0 && bits::less_than(v, r[at - 1])
            invariant
                at <= r@.len(),
                ascending(r@),
                bits::finite(v),
                forall|j: int| 0 <= j < r@.len() ==> bits::finite(#[trigger] r@[j]),
                forall|j: int| at <= j < r@.len() ==> bits::lt(v, #[trigger] r@[j]),
            decreases at,
        {
            at = at - 1;
        }
        let ghost before = r@;
        let ghost taken = values@.take(k as int);
        proof {
            lemma_insert_keeps_zeros(before, at as int, v);
            assert forall|i: int, j: int| 0 <= i < j < before.len() + 1 implies !bits::lt(
                #[trigger] before.insert(at as int, v)[j],
                #[trigger] before.insert(at as int, v)[i],
            ) by {
                if i < at && at > 0 {
                    assert(!bits::lt(v, before[at - 1]));
                    if i < at - 1 {
                        assert(!bits::lt(before[at - 1], before[i]));
                    }
                }
            }
            assert(values@.take(k + 1) =~= taken.push(v));
            reveal(Seq::filter);
            assert(before.push(v).drop_last() =~= before);
            assert(taken.push(v).drop_last() =~= taken);
            vstd::seq_lib::lemma_multiset_commutative(before, seq![v]);
            vstd::seq_lib::lemma_multiset_commutative(taken, seq![v]);
            assert(before.push(v) =~= before + seq![v]);
            assert(taken.push(v) =~= taken + seq![v]);
        }
        r.insert(at, v);
        k = k + 1;
    }
    proof {
        assert(values@.take(k as int) =~= values@);
    }
    r
}

/// Finite estimates in increasing order, as percentiles are read from.
pub fn sorted_estimates(estimates: &Vec<u64>) -> (r: Vec<u64>)
    ensures
        sorts(r@, estimates@.filter(|b: u64| bits::finite(b))),
{
    let values: Vec<u64> = finite_estimates(estimates);
    proof {
        lemma_filter_all(estimates@, |b: u64| bits::finite(b));
    }
    sort_values(&values)
}

/// Where a percentile stands in a sorted sample.
#[derive(Debug, Clone, Copy, PartialEq, Eq, Structural)]
pub enum Percentile {
    /// The sample is empty.
    Undefined,
    /// The percentile is the value at this position.
    At(usize),
    /// The percentile lies between the values at these positions.
    Between(usize, usize),
}

pub open spec fn at_most(k: int, last: int) -> int {
    if k <= last {
        k
    } else {
        last
    }
}

/// Positions around the fractional index `idx`, within a sample of `n`.
pub open spec fn percentile_of(n: nat, idx: u64) -> Percentile {
    if n == 0 {
        Percentile::Undefined
    } else if n == 1 {
        Percentile::At(0)
    } else {
        let low = at_most(bits::index_of(idx), n - 1);
        let high = at_most(bits::ceiling_index_of(idx), n - 1);
        if low == high {
            Percentile::At(low as usize)
        } else {
            Percentile::Between(low as usize, high as usize)
        }
    }
}

/// Locates a percentile: the sorted values on either side of the fractional
/// index `idx`.
pub fn locate_percentile(n: usize, idx: u64) -> (r: Percentile)
    ensures
        r == percentile_of(n as nat, idx),
{
    if n == 0 {
        return Percentile::Undefined;
    }
    if n == 1 {
        return Percentile::At(0);
    }
    let below: usize = bits::truncate(idx);
    let above: usize = bits::ceiling(idx);
    let low: usize = if below <= n - 1 {
        below
    } else {
        n - 1
    };
    let high: usize = if above <= n - 1 {
        above
    } else {
        n - 1
    };
    if low == high {
        Percentile::At(low)
    } else {
        Percentile::Between(low, high)
    }
}

/// A percentile stays within the sample, and its two positions are neighbours
/// in order.
pub proof fn law_percentile_in_sample(n: nat, idx: u64)
    requires
        n <= usize::MAX,
    ensures
        match percentile_of(n, idx) {
            Percentile::Undefined => n == 0,
            Percentile::At(k) => k < n,
            Percentile::Between(low, high) => low + 1 == high && high < n,
        },
{
    bits::lemma_ceiling_next(idx);
}

/// Outcome of a bootstrap run.
#[derive(Debug)]
pub struct BootstrapResult {
    /// Finite estimates, in the order of the replicates.
    pub estimates: Vec<u64>,
    /// Standard error.
    pub se: u64,
    pub mean: u64,
    /// Ends of the percentile interval.
    pub ci_lower: u64,
    pub ci_upper: u64,
    /// Replicates that gave a finite estimate.
    pub n_valid: usize,
    /// Replicates attempted.
    pub n_total: usize,
    /// Nominal confidence level.
    pub level: u64,
}

impl BootstrapResult {
    /// This is the outcome of a run whose replicates gave `outcomes`: the finite
    /// estimates, their spread and their percentile interval.
    pub open spec fn summarizes<
        V: Fn(&Vec<u64>, usize) -> (u64, u64, u64),
        P: Fn(usize) -> (u64, u64),
        B: Fn(u64, u64, usize, u64) -> u64,
    >(
        &self,
        outcomes: Seq<Option<u64>>,
        ddof: u8,
        level: u64,
        spread: V,
        positions: P,
        blend: B,
    ) -> bool {
        let kept = kept_estimates_of(outcomes);
        &&& self.estimates@ == kept
        &&& self.n_valid == kept.len()
        &&& self.n_total == outcomes.len()
        &&& self.n_valid <= self.n_total
        &&& self.level == level
        &&& exists|variance: u64| #[trigger]
            gives_variance((self.mean, variance, self.se), kept, ddof, spread)
        &&& gives_interval((self.ci_lower, self.ci_upper), kept, positions, blend)
    }

    /// This is the outcome of a run that has nothing to estimate: no spread, and
    /// an undefined interval.
    pub open spec fn is_empty(&self, n_total: usize, level: u64) -> bool {
        &&& self.estimates@.len() == 0
        &&& self.se == bits::ZERO
        &&& self.mean == bits::ZERO
        &&& self.ci_lower == bits::NAN
        &&& self.ci_upper == bits::NAN
        &&& self.n_valid == 0
        &&& self.n_total == n_total
        &&& self.level == level
    }

    /// Outcome of a run that has nothing to estimate.
    pub fn empty(n_total: usize, level: u64) -> (r: BootstrapResult)
        ensures
            r.is_empty(n_total, level),
    {
        BootstrapResult {
            estimates: Vec::new(),
            se: bits::ZERO,
            mean: bits::ZERO,
            ci_lower: bits::NAN,
            ci_upper: bits::NAN,
            n_valid: 0,
            n_total,
            level,
        }
    }

    /// Outcome of a run: the finite estimates among `outcomes`, with the
    /// moments and the interval computed from them.
    pub fn collect(
        outcomes: &Vec<Option<u64>>,
        moments: (u64, u64),
        interval: (u64, u64),
        level: u64,
    ) -> (r: BootstrapResult)
        ensures
            r.estimates@ == kept_estimates_of(outcomes@),
            r.mean == moments.0,
            r.se == moments.1,
            r.ci_lower == interval.0,
            r.ci_upper == interval.1,
            r.n_valid == kept_estimates_of(outcomes@).len(),
            r.n_total == outcomes@.len(),
            r.n_valid <= r.n_total,
            r.level == level,
    {
        let estimates: Vec<u64> = kept_estimates(outcomes);
        proof {
            law_kept_estimates(outcomes@);
        }
        let n_valid: usize = estimates.len();
        BootstrapResult {
            estimates,
            se: moments.1,
            mean: moments.0,
            ci_lower: interval.0,
            ci_upper: interval.1,
            n_valid,
            n_total: outcomes.len(),
            level,
        }
    }
}

/// Positions that a percentile lies between.
pub open spec fn bounds_of(p: Percentile) -> (int, int) {
    match p {
        Percentile::Undefined => (0, 0),
        Percentile::At(k) => (k as int, k as int),
        Percentile::Between(low, high) => (low as int, high as int),
    }
}

/// A higher percentile does not stand below a lower one: both positions move
/// up, and so do the values at them.
pub proof fn law_percentiles_ordered(sorted: Seq<u64>, lower: u64, upper: u64)
    requires
        sorted.len() > 0,
        sorted.len() <= usize::MAX,
        ascending(sorted),
        bits::le(lower, upper),
    ensures
        ({
            let (a, b) = bounds_of(percentile_of(sorted.len(), lower));
            let (c, d) = bounds_of(percentile_of(sorted.len(), upper));
            &&& 0 <= a <= c < sorted.len()
            &&& 0 <= b <= d < sorted.len()
            &&& !bits::lt(sorted[c], sorted[a])
            &&& !bits::lt(sorted[d], sorted[b])
        }),
{
    bits::law_index_monotone(lower, upper);
    bits::lemma_ceiling_next(lower);
    bits::lemma_ceiling_next(upper);
}

/// Finite estimates, in order.
pub open spec fn finite_of(estimates: Seq<u64>) -> Seq<u64> {
    estimates.filter(|b: u64| bits::finite(b))
}

/// Denominator of the variance of `n` estimates.
pub open spec fn denominator_of(n: nat, ddof: u8) -> usize {
    if ddof == 0 {
        n as usize
    } else {
        (n - 1) as usize
    }
}

/// `r` is the mean, the variance and the standard error of the finite
/// estimates, as `spread` computes them from two estimates on.
pub open spec fn gives_variance<V: Fn(&Vec<u64>, usize) -> (u64, u64, u64)>(
    r: (u64, u64, u64),
    estimates: Seq<u64>,
    ddof: u8,
    spread: V,
) -> bool {
    let values = finite_of(estimates);
    if values.len() == 0 {
        r == (bits::ZERO, bits::ZERO, bits::ZERO)
    } else if values.len() == 1 {
        r == (values[0], bits::ZERO, bits::ZERO)
    } else {
        exists|kept: Vec<u64>|
            kept@ == values && #[trigger] call_ensures(
                spread,
                (&kept, denominator_of(values.len(), ddof)),
                r,
            )
    }
}

/// Mean, variance and standard error of bootstrap estimates.  `spread` gets two
/// estimates or more and the denominator of the variance.
pub fn compute_bootstrap_variance<V: Fn(&Vec<u64>, usize) -> (u64, u64, u64)>(
    estimates: &Vec<u64>,
    ddof: u8,
    spread: &V,
) -> (r: (u64, u64, u64))
    requires
        forall|v: &Vec<u64>, denominator: usize| #[trigger]
            call_requires(*spread, (v, denominator)),
    ensures
        gives_variance(r, estimates@, ddof, *spread),
{
    match variance_plan(estimates, ddof) {
        VariancePlan::Degenerate(mean) => (mean, bits::ZERO, bits::ZERO),
        VariancePlan::Spread(kept, denominator) => {
            let r: (u64, u64, u64) = (*spread)(&kept, denominator);
            assert(call_ensures(*spread, (&kept, denominator_of(kept@.len(), ddof)), r));
            r
        },
    }
}

/// `v` is what a sorted sample holds at a fractional index: a value of the
/// sample, or a blend of two neighbours.
pub open spec fn reads_percentile<B: Fn(u64, u64, usize, u64) -> u64>(
    v: u64,
    sorted: Seq<u64>,
    idx: u64,
    blend: B,
) -> bool {
    match percentile_of(sorted.len(), idx) {
        Percentile::Undefined => v == bits::NAN,
        Percentile::At(k) => v == sorted[k as int],
        Percentile::Between(low, high) => call_ensures(
            blend,
            (sorted[low as int], sorted[high as int], low, idx),
            v,
        ),
    }
}

/// Value of a sorted sample at a fractional index.  `blend` gets two
/// neighbours, the position of the lower one and the index.
pub fn read_percentile<B: Fn(u64, u64, usize, u64) -> u64>(
    sorted: &Vec<u64>,
    idx: u64,
    blend: &B,
) -> (r: u64)
    requires
        forall|a: u64, b: u64, low: usize, i: u64| #[trigger]
            call_requires(*blend, (a, b, low, i)),
    ensures
        reads_percentile(r, sorted@, idx, *blend),
{
    let n: usize = sorted.len();
    proof {
        law_percentile_in_sample(n as nat, idx);
    }
    match locate_percentile(n, idx) {
        Percentile::Undefined => bits::NAN,
        Percentile::At(k) => sorted[k],
        Percentile::Between(low, high) => (*blend)(sorted[low], sorted[high], low, idx),
    }
}

/// `r` is the interval between two percentiles of the finite estimates.
pub open spec fn gives_interval<
    P: Fn(usize) -> (u64, u64),
    B: Fn(u64, u64, usize, u64) -> u64,
>(r: (u64, u64), estimates: Seq<u64>, positions: P, blend: B) -> bool {
    if finite_of(estimates).len() == 0 {
        r == (bits::NAN, bits::NAN)
    } else {
        exists|sorted: Seq<u64>, idx: (u64, u64)|
            {
                &&& #[trigger] sorts(sorted, finite_of(estimates))
                &&& #[trigger] call_ensures(positions, (sorted.len() as usize,), idx)
                &&& reads_percentile(r.0, sorted, idx.0, blend)
                &&& reads_percentile(r.1, sorted, idx.1, blend)
            }
    }
}

/// Percentile interval of bootstrap estimates.  `positions` gives the
/// fractional indices of its ends in a sample of some size.
pub fn compute_percentile_ci<
    P: Fn(usize) -> (u64, u64),
    B: Fn(u64, u64, usize, u64) -> u64,
>(estimates: &Vec<u64>, positions: &P, blend: &B) -> (r: (u64, u64))
    requires
        forall|n: usize| #[trigger] call_requires(*positions, (n,)),
        forall|a: u64, b: u64, low: usize, i: u64| #[trigger]
            call_requires(*blend, (a, b, low, i)),
    ensures
        gives_interval(r, estimates@, *positions, *blend),
{
    let sorted: Vec<u64> = sorted_estimates(estimates);
    assert(sorts(sorted@, finite_of(estimates@)));
    if sorted.len() == 0 {
        return (bits::NAN, bits::NAN);
    }
    let idx: (u64, u64) = (*positions)(sorted.len());
    let lower: u64 = read_percentile(&sorted, idx.0, blend);
    let upper: u64 = read_percentile(&sorted, idx.1, blend);
    assert(call_ensures(*positions, (sorted@.len() as usize,), idx));
    (lower, upper)
}

/// Summary of the replicates of a run: the finite estimates among their
/// outcomes, with the moments and the interval computed from them.
pub fn summarize<
    V: Fn(&Vec<u64>, usize) -> (u64, u64, u64),
    P: Fn(usize) -> (u64, u64),
    B: Fn(u64, u64, usize, u64) -> u64,
>(
    outcomes: &Vec<Option<u64>>,
    ddof: u8,
    level: u64,
    spread: &V,
    positions: &P,
    blend: &B,
) -> (r: BootstrapResult)
    requires
        forall|v: &Vec<u64>, denominator: usize| #[trigger]
            call_requires(*spread, (v, denominator)),
        forall|n: usize| #[trigger] call_requires(*positions, (n,)),
        forall|a: u64, b: u64, low: usize, i: u64| #[trigger]
            call_requires(*blend, (a, b, low, i)),
    ensures
        r.summarizes(outcomes@, ddof, level, *spread, *positions, *blend),
{
    let kept: Vec<u64> = kept_estimates(outcomes);
    let (mean, variance, se) = compute_bootstrap_variance(&kept, ddof, spread);
    let interval: (u64, u64) = compute_percentile_ci(&kept, positions, blend);
    BootstrapResult::collect(outcomes, (mean, se), interval, level)
}

/// The variance of some estimates is that of the finite ones, and the same under
/// every correction of the denominator but zero.
pub proof fn law_variance_of_finite_estimates<V: Fn(&Vec<u64>, usize) -> (u64, u64, u64)>(
    r: (u64, u64, u64),
    estimates: Seq<u64>,
    ddof: u8,
    other: u8,
    spread: V,
)
    ensures
        gives_variance(r, estimates, ddof, spread) == gives_variance(
            r,
            finite_of(estimates),
            ddof,
            spread,
        ),
        ddof > 0 && other > 0 ==> gives_variance(r, estimates, ddof, spread) == gives_variance(
            r,
            estimates,
            other,
            spread,
        ),
{
    law_variance_ignores_non_finite(estimates);
    assert(finite_of(finite_of(estimates)) == finite_of(estimates));
    let n = finite_of(estimates).len();
    if ddof > 0 && other > 0 {
        assert(denominator_of(n, ddof) == denominator_of(n, other));
    }
}

/// A percentile interval does not depend on the order of the estimates, but for
/// the order of zeros of either sign.
pub proof fn law_interval_ignores_order<
    P: Fn(usize) -> (u64, u64),
    B: Fn(u64, u64, usize, u64) -> u64,
>(r: (u64, u64), estimates: Seq<u64>, shuffled: Seq<u64>, positions: P, blend: B)
    requires
        finite_of(estimates).to_multiset() == finite_of(shuffled).to_multiset(),
        finite_of(estimates).filter(|b: u64| bits::zero(b)) == finite_of(shuffled).filter(
            |b: u64| bits::zero(b),
        ),
    ensures
        gives_interval(r, estimates, positions, blend) == gives_interval(
            r,
            shuffled,
            positions,
            blend,
        ),
{
    let (a, b) = (finite_of(estimates), finite_of(shuffled));
    a.to_multiset_ensures();
    b.to_multiset_ensures();
    assert(a.len() == b.len());
    assert forall|sorted: Seq<u64>| #[trigger] sorts(sorted, a) == sorts(sorted, b) by {}
    if gives_interval(r, estimates, positions, blend) && a.len() > 0 {
        let (sorted, idx) = choose|sorted: Seq<u64>, idx: (u64, u64)|
            {
                &&& #[trigger] sorts(sorted, a)
                &&& #[trigger] call_ensures(positions, (sorted.len() as usize,), idx)
                &&& reads_percentile(r.0, sorted, idx.0, blend)
                &&& reads_percentile(r.1, sorted, idx.1, blend)
            };
        assert(sorts(sorted, b));
    }
    if gives_interval(r, shuffled, positions, blend) && a.len() > 0 {
        let (sorted, idx) = choose|sorted: Seq<u64>, idx: (u64, u64)|
            {
                &&& #[trigger] sorts(sorted, b)
                &&& #[trigger] call_ensures(positions, (sorted.len() as usize,), idx)
                &&& reads_percentile(r.0, sorted, idx.0, blend)
                &&& reads_percentile(r.1, sorted, idx.1, blend)
            };
        assert(sorts(sorted, a));
    }
}

/// `blend` stays between its two values and does not fall as the index rises.
pub open spec fn blends_between<B: Fn(u64, u64, usize, u64) -> u64>(blend: B) -> bool {
    &&& forall|a: u64, b: u64, low: usize, idx: u64, v: u64|
        bits::finite(a) && bits::finite(b) && bits::le(a, b) && #[trigger] call_ensures(
            blend,
            (a, b, low, idx),
            v,
        ) ==> bits::le(a, v) && bits::le(v, b)
    &&& forall|a: u64, b: u64, c: u64, d: u64, low: usize, p: u64, q: u64, u: u64, v: u64|
        bits::same(a, c) && bits::same(b, d) && bits::le(p, q) && #[trigger] call_ensures(
            blend,
            (a, b, low, p),
            u,
        ) && #[trigger] call_ensures(blend, (c, d, low, q), v) ==> bits::le(u, v)
}

proof fn lemma_mapped_multiset(a: Seq<u64>, b: Seq<u64>, f: spec_fn(u64) -> int)
    requires
        a.to_multiset() == b.to_multiset(),
    ensures
        a.map_values(f).to_multiset() == b.map_values(f).to_multiset(),
    decreases a.len(),
{
    a.to_multiset_ensures();
    b.to_multiset_ensures();
    if a.len() == 0 {
        assert(b.len() == 0);
        assert(a.map_values(f) =~= b.map_values(f));
    } else {
        let (rest, x) = (a.drop_last(), a.last());
        assert(rest.push(x) =~= a);
        rest.to_multiset_ensures();
        assert(a.to_multiset().count(x) > 0) by {
            assert(a[a.len() - 1] == x);
            assert(a.contains(x));
        }
        assert(b.contains(x));
        let j = choose|j: int| 0 <= j < b.len() && b[j] == x;
        let less = b.remove(j);
        assert(less.to_multiset() =~= b.to_multiset().remove(x));
        assert(rest.to_multiset() =~= a.to_multiset().remove(x));
        lemma_mapped_multiset(rest, less, f);
        let (fa, fb) = (a.map_values(f), b.map_values(f));
        fa.to_multiset_ensures();
        fb.to_multiset_ensures();
        rest.map_values(f).to_multiset_ensures();
        assert(fa =~= rest.map_values(f).push(f(x)));
        assert(fb.remove(j) =~= less.map_values(f));
        assert(fb[j] == f(x));
        assert(fb.contains(f(x)));
        assert(fb.to_multiset() =~= fb.remove(j).to_multiset().insert(f(x)));
    }
}

/// The same numbers and denominator always have the same mean and spread.
pub open spec fn one_spread<V: Fn(&Vec<u64>, usize) -> (u64, u64, u64)>(spread: V) -> bool {
    forall|a: Vec<u64>, b: Vec<u64>, n: usize, u: (u64, u64, u64), v: (u64, u64, u64)|
        a@ == b@ && #[trigger] call_ensures(spread, (&a, n), u) && #[trigger] call_ensures(
            spread,
            (&b, n),
            v,
        ) ==> u == v
}

/// Runs with the same outcomes have the same estimates, mean and standard error.
pub proof fn law_one_summary<
    V: Fn(&Vec<u64>, usize) -> (u64, u64, u64),
    P: Fn(usize) -> (u64, u64),
    B: Fn(u64, u64, usize, u64) -> u64,
>(
    a: &BootstrapResult,
    b: &BootstrapResult,
    outcomes: Seq<Option<u64>>,
    ddof: u8,
    level: u64,
    spread: V,
    positions: P,
    blend: B,
)
    requires
        a.summarizes(outcomes, ddof, level, spread, positions, blend),
        b.summarizes(outcomes, ddof, level, spread, positions, blend),
        one_spread(spread),
    ensures
        a.estimates@ == b.estimates@,
        a.n_valid == b.n_valid,
        a.n_total == b.n_total,
        a.mean == b.mean,
        a.se == b.se,
{
    let kept = kept_estimates_of(outcomes);
    let u = choose|variance: u64| #[trigger]
        gives_variance((a.mean, variance, a.se), kept, ddof, spread);
    let v = choose|variance: u64| #[trigger]
        gives_variance((b.mean, variance, b.se), kept, ddof, spread);
    let values = finite_of(kept);
    let n = denominator_of(values.len(), ddof);
    let (r, s) = ((a.mean, u, a.se), (b.mean, v, b.se));
    if values.len() > 1 {
        let p = choose|kept: Vec<u64>|
            kept@ == values && #[trigger] call_ensures(spread, (&kept, n), r);
        let q = choose|kept: Vec<u64>|
            kept@ == values && #[trigger] call_ensures(spread, (&kept, n), s);
        assert(p@ == q@);
        assert(r == s);
    }
}

/// Two sorted arrangements of the same numbers hold equal numbers at every
/// place.
pub proof fn law_one_sorted_order(a: Seq<u64>, b: Seq<u64>)
    requires
        ascending(a),
        ascending(b),
        a.to_multiset() == b.to_multiset(),
        forall|k: int| 0 <= k < a.len() ==> bits::finite(#[trigger] a[k]),
        forall|k: int| 0 <= k < b.len() ==> bits::finite(#[trigger] b[k]),
    ensures
        a.len() == b.len(),
        forall|k: int| 0 <= k < a.len() ==> bits::same(#[trigger] a[k], b[k]),
{
    let f = |v: u64| bits::value_key(v);
    let leq = |x: int, y: int| x <= y;
    let (p, q) = (a.map_values(f), b.map_values(f));
    lemma_mapped_multiset(a, b, f);
    assert(sorted_by(p, leq)) by {
        assert forall|i: int, j: int| 0 <= i < j < p.len() implies #[trigger] leq(p[i], p[j]) by {
            assert(!bits::lt(a[j], a[i]));
        }
    }
    assert(sorted_by(q, leq)) by {
        assert forall|i: int, j: int| 0 <= i < j < q.len() implies #[trigger] leq(q[i], q[j]) by {
            assert(!bits::lt(b[j], b[i]));
        }
    }
    lemma_sorted_unique(p, q, leq);
    a.to_multiset_ensures();
    b.to_multiset_ensures();
    assert forall|k: int| 0 <= k < a.len() implies bits::same(#[trigger] a[k], b[k]) by {
        assert(p[k] == q[k]);
        assert(bits::finite(b[k]));
    }
}

proof fn lemma_sorted_finite(sorted: Seq<u64>, estimates: Seq<u64>)
    requires
        sorts(sorted, finite_of(estimates)),
    ensures
        forall|k: int| 0 <= k < sorted.len() ==> bits::finite(#[trigger] sorted[k]),
        forall|k: int| 0 <= k < sorted.len() ==> finite_of(estimates).contains(#[trigger] sorted[k]),
        forall|v: u64| #[trigger] finite_of(estimates).contains(v) ==> sorted.contains(v),
{
    let values = finite_of(estimates);
    lemma_filter_all(estimates, |b: u64| bits::finite(b));
    sorted.to_multiset_ensures();
    values.to_multiset_ensures();
    assert forall|k: int| 0 <= k < sorted.len() implies bits::finite(#[trigger] sorted[k])
        && values.contains(sorted[k]) by {
        assert(sorted.contains(sorted[k]));
        assert(values.to_multiset().count(sorted[k]) > 0);
        let j = choose|j: int| 0 <= j < values.len() && values[j] == sorted[k];
        assert(bits::finite(values[j]));
    }
    assert forall|v: u64| #[trigger] values.contains(v) implies sorted.contains(v) by {
        assert(sorted.to_multiset().count(v) > 0);
    }
}

proof fn lemma_percentile_between<B: Fn(u64, u64, usize, u64) -> u64>(
    v: u64,
    sorted: Seq<u64>,
    idx: u64,
    blend: B,
)
    requires
        sorted.len() > 0,
        sorted.len() <= usize::MAX,
        ascending(sorted),
        forall|k: int| 0 <= k < sorted.len() ==> bits::finite(#[trigger] sorted[k]),
        reads_percentile(v, sorted, idx, blend),
        blends_between(blend),
    ensures
        ({
            let (a, b) = bounds_of(percentile_of(sorted.len(), idx));
            &&& 0 <= a <= b < sorted.len()
            &&& bits::le(sorted[a], v)
            &&& bits::le(v, sorted[b])
        }),
{
    law_percentile_in_sample(sorted.len(), idx);
    let (a, b) = bounds_of(percentile_of(sorted.len(), idx));
    if a < b {
        assert(!bits::lt(sorted[b], sorted[a]));
    }
    assert(bits::finite(sorted[a]) && bits::finite(sorted[b]));
}

proof fn lemma_percentiles_rise<B: Fn(u64, u64, usize, u64) -> u64>(
    u: u64,
    v: u64,
    a: Seq<u64>,
    b: Seq<u64>,
    p: u64,
    q: u64,
    blend: B,
)
    requires
        a.len() > 0,
        a.len() <= usize::MAX,
        a.len() == b.len(),
        ascending(a),
        ascending(b),
        forall|k: int| 0 <= k < a.len() ==> bits::finite(#[trigger] a[k]),
        forall|k: int| 0 <= k < b.len() ==> bits::finite(#[trigger] b[k]),
        forall|k: int| 0 <= k < a.len() ==> bits::same(#[trigger] a[k], b[k]),
        reads_percentile(u, a, p, blend),
        reads_percentile(v, b, q, blend),
        bits::le(p, q),
        blends_between(blend),
    ensures
        bits::le(u, v),
{
    lemma_percentile_between(u, a, p, blend);
    lemma_percentile_between(v, b, q, blend);
    law_percentiles_ordered(a, p, q);
    law_percentile_in_sample(a.len(), p);
    law_percentile_in_sample(a.len(), q);
    let (i, j) = bounds_of(percentile_of(a.len(), p));
    let (k, l) = bounds_of(percentile_of(a.len(), q));
    assert(bits::same(a[i], b[i]) && bits::same(a[j], b[j]) && bits::same(a[k], b[k])
        && bits::same(a[l], b[l]));
    if j <= k {
        if j < k {
            assert(!bits::lt(a[k], a[j]));
        }
        assert(bits::le(a[j], b[k]));
    } else {
        assert(i == k && j == l);
    }
}

/// Both ends of a percentile interval lie between the least and the greatest
/// finite estimate, and they are in order where their positions are.
pub proof fn law_interval_within_estimates<
    P: Fn(usize) -> (u64, u64),
    B: Fn(u64, u64, usize, u64) -> u64,
>(r: (u64, u64), estimates: Seq<u64>, positions: P, blend: B)
    requires
        gives_interval(r, estimates, positions, blend),
        0 < finite_of(estimates).len() <= usize::MAX,
        blends_between(blend),
    ensures
        exists|least: u64, greatest: u64|
            {
                &&& #[trigger] finite_of(estimates).contains(least)
                &&& #[trigger] finite_of(estimates).contains(greatest)
                &&& forall|v: u64| #[trigger]
                    finite_of(estimates).contains(v) ==> bits::le(least, v) && bits::le(v, greatest)
                &&& bits::le(least, r.0) && bits::le(r.0, greatest)
                &&& bits::le(least, r.1) && bits::le(r.1, greatest)
            },
        (forall|idx: (u64, u64)| #[trigger]
            call_ensures(positions, (finite_of(estimates).len() as usize,), idx) ==> bits::le(
                idx.0,
                idx.1,
            )) ==> bits::le(r.0, r.1),
{
    let values = finite_of(estimates);
    let (sorted, idx) = choose|sorted: Seq<u64>, idx: (u64, u64)|
        {
            &&& #[trigger] sorts(sorted, finite_of(estimates))
            &&& #[trigger] call_ensures(positions, (sorted.len() as usize,), idx)
            &&& reads_percentile(r.0, sorted, idx.0, blend)
            &&& reads_percentile(r.1, sorted, idx.1, blend)
        };
    lemma_sorted_finite(sorted, estimates);
    lemma_percentile_between(r.0, sorted, idx.0, blend);
    lemma_percentile_between(r.1, sorted, idx.1, blend);
    let n = sorted.len() as int;
    let (least, greatest) = (sorted[0], sorted[n - 1]);
    assert forall|k: int| 0 <= k < n implies bits::le(least, #[trigger] sorted[k]) && bits::le(
        sorted[k],
        greatest,
    ) by {
        if k > 0 {
            assert(!bits::lt(sorted[k], sorted[0]));
        }
        if k < n - 1 {
            assert(!bits::lt(sorted[n - 1], sorted[k]));
        }
        assert(bits::finite(sorted[0]) && bits::finite(sorted[n - 1]));
    }
    assert(values.contains(least) && values.contains(greatest));
    assert forall|v: u64| #[trigger] values.contains(v) implies bits::le(least, v) && bits::le(
        v,
        greatest,
    ) by {
        assert(sorted.contains(v));
    }
    let (a, b) = bounds_of(percentile_of(sorted.len(), idx.0));
    let (c, d) = bounds_of(percentile_of(sorted.len(), idx.1));
    assert(bits::le(least, sorted[a]) && bits::le(sorted[b], greatest));
    assert(bits::le(least, sorted[c]) && bits::le(sorted[d], greatest));
    if bits::le(idx.0, idx.1) {
        lemma_percentiles_rise(r.0, r.1, sorted, sorted, idx.0, idx.1, blend);
    }
}

/// Percentile intervals are nested: positions further out give an interval that
/// contains the other.
pub proof fn law_intervals_nest<
    P: Fn(usize) -> (u64, u64),
    Q: Fn(usize) -> (u64, u64),
    B: Fn(u64, u64, usize, u64) -> u64,
>(
    inner: (u64, u64),
    outer: (u64, u64),
    estimates: Seq<u64>,
    positions: P,
    further: Q,
    blend: B,
)
    requires
        gives_interval(inner, estimates, positions, blend),
        gives_interval(outer, estimates, further, blend),
        0 < finite_of(estimates).len() <= usize::MAX,
        blends_between(blend),
        forall|n: usize, i: (u64, u64), o: (u64, u64)| #[trigger]
            call_ensures(positions, (n,), i) && #[trigger] call_ensures(further, (n,), o)
                ==> bits::le(o.0, i.0) && bits::le(i.1, o.1),
    ensures
        bits::le(outer.0, inner.0),
        bits::le(inner.1, outer.1),
{
    let (a, i) = choose|sorted: Seq<u64>, idx: (u64, u64)|
        {
            &&& #[trigger] sorts(sorted, finite_of(estimates))
            &&& #[trigger] call_ensures(positions, (sorted.len() as usize,), idx)
            &&& reads_percentile(inner.0, sorted, idx.0, blend)
            &&& reads_percentile(inner.1, sorted, idx.1, blend)
        };
    let (b, o) = choose|sorted: Seq<u64>, idx: (u64, u64)|
        {
            &&& #[trigger] sorts(sorted, finite_of(estimates))
            &&& #[trigger] call_ensures(further, (sorted.len() as usize,), idx)
            &&& reads_percentile(outer.0, sorted, idx.0, blend)
            &&& reads_percentile(outer.1, sorted, idx.1, blend)
        };
    lemma_sorted_finite(a, estimates);
    lemma_sorted_finite(b, estimates);
    law_one_sorted_order(a, b);
    assert forall|k: int| 0 <= k < b.len() implies bits::same(#[trigger] b[k], a[k]) by {
        assert(bits::same(a[k], b[k]));
    }
    lemma_percentiles_rise(outer.0, inner.0, b, a, o.0, i.0, blend);
    lemma_percentiles_rise(inner.1, outer.1, a, b, i.1, o.1, blend);
}

/// Effects are kept cell by cell: one more cell adds its effect, with its unit,
/// exactly where the effect was computed and is finite, whatever precedes it.
pub proof fn law_every_finite_effect_is_kept(
    cells: &Vec<(usize, usize)>,
    more: &Vec<(usize, usize)>,
    effects: &Vec<Option<u64>>,
    others: &Vec<Option<u64>>,
    r: Vec<(u64, usize)>,
    s: Vec<(u64, usize)>,
    tau: u64,
)
    requires
        call_ensures(finite_effects, (cells, effects), r),
        call_ensures(finite_effects, (more, others), s),
        cells@.len() == effects@.len(),
        more@.len() == cells@.len() + 1,
        others@.len() == more@.len(),
        more@.drop_last() == cells@,
        others@.drop_last() == effects@,
    ensures
        cells@.len() == 0 ==> r@.len() == 0,
        others@.last() == Some(tau) && bits::finite(tau) ==> s@ == r@.push((tau, more@.last().1)),
        others@.last() == Some(tau) && !bits::finite(tau) ==> s@ == r@,
        others@.last() is None ==> s@ == r@,
{
}

/// An effect carries weight exactly where its unit has a recorded weight that is
/// positive and finite, and then it carries that weight, whatever precedes it.
pub proof fn law_every_weighted_effect_is_kept(
    effects: &Vec<(u64, usize)>,
    more: &Vec<(u64, usize)>,
    weights: &Vec<u64>,
    r: Vec<(u64, u64)>,
    s: Vec<(u64, u64)>,
)
    requires
        call_ensures(weighted_effects, (effects, weights), r),
        call_ensures(weighted_effects, (more, weights), s),
        more@.len() == effects@.len() + 1,
        more@.drop_last() == effects@,
    ensures
        effects@.len() == 0 ==> r@.len() == 0,
        ({
            let (tau, unit) = more@.last();
            let w = weights@[unit as int];
            let carries = unit < weights@.len() && bits::finite(w) && bits::lt(bits::ZERO, w);
            &&& carries ==> s@ == r@.push((w, tau))
            &&& !carries ==> s@ == r@
        }),
{
}

/// Without weights the average runs over every effect; with weights, over those
/// that carry weight.  It is undefined exactly where it would run over none.
pub proof fn law_aggregation(
    effects: &Vec<(u64, usize)>,
    weights: Option<&Vec<u64>>,
    r: Aggregation,
    terms: Vec<(u64, u64)>,
)
    requires
        call_ensures(aggregate_att, (effects, weights), r),
        weights matches Some(w) ==> call_ensures(weighted_effects, (effects, w), terms),
    ensures
        weights is None ==> (r is Undefined <==> effects@.len() == 0),
        weights is None && effects@.len() > 0 ==> (r matches Aggregation::Mean(kept) && kept@.len()
            == effects@.len() && forall|k: int|
            0 <= k < kept@.len() ==> #[trigger] kept@[k] == effects@[k].0),
        weights is Some ==> (r is Undefined <==> terms@.len() == 0),
        weights is Some && terms@.len() > 0 ==> (r matches Aggregation::Weighted(kept) && kept@
            == terms@),
{
}

/// A run keeps the estimate of a replicate exactly where there is one and it is
/// finite, in the order of the replicates, whatever precedes it.
pub proof fn law_every_finite_estimate_is_kept(
    outcomes: &Vec<Option<u64>>,
    more: &Vec<Option<u64>>,
    r: Vec<u64>,
    s: Vec<u64>,
    att: u64,
)
    requires
        call_ensures(kept_estimates, (outcomes,), r),
        call_ensures(kept_estimates, (more,), s),
        more@.len() == outcomes@.len() + 1,
        more@.drop_last() == outcomes@,
    ensures
        outcomes@.len() == 0 ==> r@.len() == 0,
        more@.last() == Some(att) && bits::finite(att) ==> s@ == r@.push(att),
        more@.last() == Some(att) && !bits::finite(att) ==> s@ == r@,
        more@.last() is None ==> s@ == r@,
{
}

/// The spread of a sample of estimates is that of its finite ones, over their
/// number or over one less, from two on; with fewer there is none.
pub proof fn law_variance_runs_over_finite_estimates<
    V: Fn(&Vec<u64>, usize) -> (u64, u64, u64),
>(estimates: &Vec<u64>, ddof: u8, spread: &V, r: (u64, u64, u64))
    requires
        call_ensures(compute_bootstrap_variance::<V>, (estimates, ddof, spread), r),
    ensures
        ({
            let kept = estimates@.filter(|b: u64| bits::finite(b));
            &&& kept.len() == 0 ==> r == (bits::ZERO, bits::ZERO, bits::ZERO)
            &&& kept.len() == 1 ==> r == (kept[0], bits::ZERO, bits::ZERO)
            &&& kept.len() >= 2 ==> exists|values: Vec<u64>, n: usize|
                {
                    &&& values@ == kept
                    &&& ddof == 0 ==> n == kept.len()
                    &&& ddof != 0 ==> n + 1 == kept.len()
                    &&& #[trigger] call_ensures(*spread, (&values, n), r)
                }
        }),
{
    let kept = finite_of(estimates@);
    if kept.len() >= 2 {
        let values = choose|v: Vec<u64>|
            v@ == kept && #[trigger] call_ensures(
                *spread,
                (&v, denominator_of(kept.len(), ddof)),
                r,
            );
        assert(values.len() == kept.len());
        let n = denominator_of(kept.len(), ddof);
        assert(call_ensures(*spread, (&values, n), r));
    }
}

/// Sorting keeps the numbers and puts them in increasing order.
pub proof fn law_sorting(values: &Vec<u64>, r: Vec<u64>)
    requires
        call_ensures(sort_values, (values,), r),
    ensures
        r@.to_multiset() == values@.to_multiset(),
        r@.len() == values@.len(),
        forall|i: int, j: int| 0 <= i < j < r@.len() ==> !bits::lt(#[trigger] r@[j], #[trigger] r@[i]),
{
}

/// Percentiles are read off all of the finite estimates.
pub proof fn law_percentiles_sort_every_estimate(estimates: &Vec<u64>, r: Vec<u64>)
    requires
        call_ensures(sorted_estimates, (estimates,), r),
    ensures
        r@.to_multiset() == estimates@.filter(|b: u64| bits::finite(b)).to_multiset(),
        r@.len() == estimates@.filter(|b: u64| bits::finite(b)).len(),
        forall|i: int, j: int| 0 <= i < j < r@.len() ==> !bits::lt(#[trigger] r@[j], #[trigger] r@[i]),
{
}

/// In a sample of any size `n`, a percentile at an index within the sample stands
/// at the whole numbers on either side of the index, and at the index itself
/// where that is whole; an index beyond the end stands at the end.
pub proof fn law_percentile_stands_at_its_index(n: usize, idx: u64, r: Percentile)
    requires
        call_ensures(locate_percentile, (n, idx), r),
    ensures
        r is Undefined <==> n == 0,
        n == 1 ==> r == Percentile::At(0),
        n >= 2 && bits::ceiling_index_of(idx) <= n - 1 ==> {
            let (floor, ceiling) = (bits::index_of(idx), bits::ceiling_index_of(idx));
            &&& floor == ceiling ==> r == Percentile::At(floor as usize)
            &&& floor != ceiling ==> r == Percentile::Between(floor as usize, ceiling as usize)
            &&& bounds_of(r) == (floor, ceiling)
        },
        n >= 2 && bits::index_of(idx) >= n - 1 ==> r == Percentile::At((n - 1) as usize),
{
    bits::lemma_ceiling_next(idx);
}

/// A finite index at or above zero lies between the two positions of its
/// percentile: the lower one is the largest whole number at or below it, the upper
/// one the smallest at or above it, whatever the size of the sample that holds
/// them.
pub proof fn law_percentile_encloses_index(n: usize, idx: u64, r: Percentile)
    requires
        call_ensures(locate_percentile, (n, idx), r),
        n >= 2,
        idx < bits::SIGN,
        bits::finite(idx),
        bits::numerator(idx) <= (n - 1) * bits::denominator(),
    ensures
        ({
            let (low, high) = match r {
                Percentile::Undefined => (n as int, n as int),
                Percentile::At(k) => (k as int, k as int),
                Percentile::Between(low, high) => (low as int, high as int),
            };
            &&& 0 <= low <= high < n
            &&& low * bits::denominator() <= bits::numerator(idx) < (low + 1) * bits::denominator()
            &&& (high - 1) * bits::denominator() < bits::numerator(idx) <= high
                * bits::denominator()
        }),
{
    bits::law_index_encloses_number(idx, n - 1);
    bits::lemma_ceiling_next(idx);
}

/// Reading a sorted sample at the index of its last value gives the greatest
/// value; at an index between two whole numbers it blends the values there.
pub proof fn law_reading_a_percentile<B: Fn(u64, u64, usize, u64) -> u64>(
    sorted: &Vec<u64>,
    idx: u64,
    blend: &B,
    r: u64,
)
    requires
        call_ensures(read_percentile::<B>, (sorted, idx, blend), r),
        sorted@.len() >= 2,
    ensures
        ({
            let (floor, ceiling) = (bits::index_of(idx), bits::ceiling_index_of(idx));
            &&& floor >= sorted@.len() - 1 ==> r == sorted@.last()
            &&& ceiling < sorted@.len() && floor == ceiling ==> r == sorted@[floor]
            &&& ceiling < sorted@.len() && floor != ceiling ==> call_ensures(
                *blend,
                (sorted@[floor], sorted@[ceiling], floor as usize, idx),
                r,
            )
        }),
{
    bits::lemma_ceiling_next(idx);
    assert(sorted.len() == sorted@.len());
}

/// The ends of a percentile interval are read off the sorted finite estimates, at
/// the two indices that belong to their number.
pub proof fn law_interval_reads_two_percentiles<
    P: Fn(usize) -> (u64, u64),
    B: Fn(u64, u64, usize, u64) -> u64,
>(estimates: &Vec<u64>, positions: &P, blend: &B, r: (u64, u64))
    requires
        call_ensures(compute_percentile_ci::<P, B>, (estimates, positions, blend), r),
    ensures
        ({
            let kept = estimates@.filter(|b: u64| bits::finite(b));
            &&& kept.len() == 0 ==> r == (bits::NAN, bits::NAN)
            &&& kept.len() >= 2 ==> exists|sorted: Seq<u64>, idx: (u64, u64)|
                {
                    &&& #[trigger] sorted.to_multiset() == kept.to_multiset()
                    &&& sorted.len() == kept.len()
                    &&& forall|i: int, j: int|
                        0 <= i < j < sorted.len() ==> !bits::lt(
                            #[trigger] sorted[j],
                            #[trigger] sorted[i],
                        )
                    &&& #[trigger] call_ensures(*positions, (kept.len() as usize,), idx)
                    &&& bits::index_of(idx.0) >= kept.len() - 1 ==> r.0 == sorted.last()
                    &&& bits::index_of(idx.1) >= kept.len() - 1 ==> r.1 == sorted.last()
                    &&& bits::ceiling_index_of(idx.0) < kept.len() && bits::index_of(idx.0)
                        == bits::ceiling_index_of(idx.0) ==> r.0 == sorted[bits::index_of(idx.0)]
                    &&& bits::ceiling_index_of(idx.1) < kept.len() && bits::index_of(idx.1)
                        == bits::ceiling_index_of(idx.1) ==> r.1 == sorted[bits::index_of(idx.1)]
                    &&& bits::ceiling_index_of(idx.0) < kept.len() && bits::index_of(idx.0)
                        != bits::ceiling_index_of(idx.0) ==> call_ensures(
                        *blend,
                        (
                            sorted[bits::index_of(idx.0)],
                            sorted[bits::ceiling_index_of(idx.0)],
                            bits::index_of(idx.0) as usize,
                            idx.0,
                        ),
                        r.0,
                    )
                    &&& bits::ceiling_index_of(idx.1) < kept.len() && bits::index_of(idx.1)
                        != bits::ceiling_index_of(idx.1) ==> call_ensures(
                        *blend,
                        (
                            sorted[bits::index_of(idx.1)],
                            sorted[bits::ceiling_index_of(idx.1)],
                            bits::index_of(idx.1) as usize,
                            idx.1,
                        ),
                        r.1,
                    )
                }
        }),
{
    let kept = finite_of(estimates@);
    if kept.len() >= 2 {
        let (sorted, idx) = choose|sorted: Seq<u64>, idx: (u64, u64)|
            {
                &&& #[trigger] sorts(sorted, finite_of(estimates@))
                &&& #[trigger] call_ensures(*positions, (sorted.len() as usize,), idx)
                &&& reads_percentile(r.0, sorted, idx.0, *blend)
                &&& reads_percentile(r.1, sorted, idx.1, *blend)
            };
        bits::lemma_ceiling_next(idx.0);
        bits::lemma_ceiling_next(idx.1);
        lemma_filter_no_longer(estimates@);
        assert(estimates.len() == estimates@.len());
        assert(sorted.to_multiset() == kept.to_multiset());
        assert(call_ensures(*positions, (kept.len() as usize,), idx));
    }
}

proof fn lemma_filter_no_longer(estimates: Seq<u64>)
    ensures
        finite_of(estimates).len() <= estimates.len(),
    decreases estimates.len(),
{
    reveal(Seq::filter);
    if estimates.len() > 0 {
        lemma_filter_no_longer(estimates.drop_last());
    }
}

/// The summary of a run reports all of its replicates and every estimate that it
/// kept, with the moments and the interval of these.
pub proof fn law_summary_reports_the_run<
    V: Fn(&Vec<u64>, usize) -> (u64, u64, u64),
    P: Fn(usize) -> (u64, u64),
    B: Fn(u64, u64, usize, u64) -> u64,
>(
    outcomes: &Vec<Option<u64>>,
    ddof: u8,
    level: u64,
    spread: &V,
    positions: &P,
    blend: &B,
    r: BootstrapResult,
    kept: Vec<u64>,
)
    requires
        call_ensures(
            summarize::<V, P, B>,
            (outcomes, ddof, level, spread, positions, blend),
            r,
        ),
        call_ensures(kept_estimates, (outcomes,), kept),
    ensures
        r.estimates@ == kept@,
        r.n_valid == kept@.len(),
        r.n_total == outcomes@.len(),
        r.level == level,
        kept@.len() == 0 ==> r.mean == bits::ZERO && r.se == bits::ZERO && r.ci_lower == bits::NAN
            && r.ci_upper == bits::NAN,
        kept@.len() == 1 ==> r.mean == kept@[0] && r.se == bits::ZERO && r.ci_lower == kept@[0]
            && r.ci_upper == kept@[0],
        kept@.len() >= 2 ==> exists|values: Vec<u64>, n: usize, variance: u64|
            {
                &&& values@ == kept@
                &&& ddof == 0 ==> n == kept@.len()
                &&& ddof != 0 ==> n + 1 == kept@.len()
                &&& #[trigger] call_ensures(*spread, (&values, n), (r.mean, variance, r.se))
            },
{
    law_kept_estimates(outcomes@);
    lemma_filter_keeps(kept@, |b: u64| bits::finite(b));
    assert(finite_of(kept@) == kept@);
    let variance = choose|variance: u64| #[trigger]
        gives_variance((r.mean, variance, r.se), kept@, ddof, *spread);
    if kept@.len() >= 2 {
        let values = choose|v: Vec<u64>|
            v@ == kept@ && #[trigger] call_ensures(
                *spread,
                (&v, denominator_of(kept@.len(), ddof)),
                (r.mean, variance, r.se),
            );
        assert(kept.len() == kept@.len());
        let n = denominator_of(kept@.len(), ddof);
        assert(call_ensures(*spread, (&values, n), (r.mean, variance, r.se)));
    }
    if kept@.len() == 1 {
        let (sorted, idx) = choose|sorted: Seq<u64>, idx: (u64, u64)|
            {
                &&& #[trigger] sorts(sorted, finite_of(kept@))
                &&& #[trigger] call_ensures(*positions, (sorted.len() as usize,), idx)
                &&& reads_percentile(r.ci_lower, sorted, idx.0, *blend)
                &&& reads_percentile(r.ci_upper, sorted, idx.1, *blend)
            };
        broadcast use vstd::seq_lib::group_to_multiset_ensures;

        assert(sorted.to_multiset().count(sorted[0]) > 0) by {
            assert(sorted.contains(sorted[0]));
        }
        assert(kept@.to_multiset().count(sorted[0]) > 0);
        assert(kept@.contains(sorted[0]));
    }
}

/// Sorting leaves the two zeros, which compare as equal, in the order in which they
/// stood.
pub proof fn law_sorting_is_stable(values: &Vec<u64>, r: Vec<u64>)
    requires
        call_ensures(sort_values, (values,), r),
    ensures
        r@.filter(|b: u64| bits::zero(b)) == values@.filter(|b: u64| bits::zero(b)),
{
}

/// A variance is planned over all finite estimates, from two on, and over their
/// number or one less.
pub proof fn law_variance_plan(estimates: &Vec<u64>, ddof: u8, r: VariancePlan, kept: Vec<u64>)
    requires
        call_ensures(variance_plan, (estimates, ddof), r),
        call_ensures(finite_estimates, (estimates,), kept),
    ensures
        kept@ == estimates@.filter(|b: u64| bits::finite(b)),
        r is Degenerate <==> kept@.len() < 2,
        r matches VariancePlan::Degenerate(mean) ==> (kept@.len() == 0 ==> mean == bits::ZERO) && (
        kept@.len() == 1 ==> mean == kept@[0]),
        r matches VariancePlan::Spread(values, n) ==> values@ == kept@ && (ddof == 0 ==> n
            == kept@.len()) && (ddof != 0 ==> n + 1 == kept@.len()),
{
}

/// A run without anything to estimate has no spread and no interval.
pub proof fn law_empty_run(n_total: usize, level: u64, r: BootstrapResult)
    requires
        call_ensures(BootstrapResult::empty, (n_total, level), r),
    ensures
        r.estimates@.len() == 0,
        r.n_valid == 0,
        r.n_total == n_total,
        r.level == level,
        r.se == bits::ZERO,
        r.mean == bits::ZERO,
        r.ci_lower == bits::NAN,
        r.ci_upper == bits::NAN,
{
}

} // verus!

//! Survey bootstrap and survey diagnostics, given the arithmetic.
//!
//! The caller supplies sampling fractions, rescaled weights and averages; what
//! is drawn, which unit is rescaled by what, and which designs are refused is
//! decided here.
use crate::bits;
use crate::error::{TropError, TropResult};
use crate::inference::Aggregation;
use crate::replication::{average_effects, averages};
use crate::survey::{
    action_of, at_least_one, collect_diagnostics, describe_design, describes_design, fpc_valid,
    groups_design, has_stratum, high_of, kish_plan, largest_of, law_redraw_is_possible,
    lemma_labels_occur, no_singletons, prepare_design, psus_of, rao_wu_replicate, resamples,
    sampled_of, sampled_strata, scales_units, sizes_of, stratum_action, unit_scales, Correction,
    DesignEffect, LonelyPsuStrategy, SampledStratum, StratumAction, StratumInfo, StratumOutcome,
    SurveyDiagnostics, UnitScale, NEG_INFINITY,
};
use vstd::prelude::*;

verus! {

/// Prepares the resampling of a survey design.  Where there is no effect to
/// average there is nothing to resample, and the design is not looked at.
pub fn plan_resampling(
    effects: &Vec<(u64, usize)>,
    strata: &Vec<i64>,
    psu: &Vec<i64>,
    fpc: Option<&Vec<u64>>,
    lonely_psu: LonelyPsuStrategy,
) -> (r: TropResult<Option<Vec<StratumInfo>>>)
    requires
        strata@.len() == psu@.len(),
        fpc is Some ==> fpc->0@.len() >= strata@.len(),
    ensures
        ({
            let refused_size = fpc is Some && !fpc_valid(strata@, psu@, fpc->0@);
            let refused_stratum = lonely_psu == LonelyPsuStrategy::Fail && !no_singletons(
                strata@,
                psu@,
            );
            if effects@.len() == 0 {
                r matches Ok(None)
            } else if refused_size {
                r is Err && r->Err_0 == TropError::InvalidFpc
            } else if refused_stratum {
                r is Err && r->Err_0 == TropError::SingletonPsu
            } else {
                r matches Ok(Some(groups)) && describes_design(
                    groups@,
                    strata@,
                    psu@,
                    sizes_of(fpc),
                )
            }
        }),
{
    if effects.len() == 0 {
        return Ok(None);
    }
    match prepare_design(strata, psu, fpc, lonely_psu) {
        Ok(groups) => Ok(Some(groups)),
        Err(e) => Err(e),
    }
}

/// `action` is what a replicate does to a stratum, with `correct` for the
/// finite population correction of a stratum of so many sampling units out of a
/// population of the given size.
pub open spec fn acts<C: Fn(usize, u64) -> Correction>(
    action: StratumAction,
    group: StratumInfo,
    lonely_psu: LonelyPsuStrategy,
    correct: C,
) -> bool {
    match group.fpc {
        Some(size) => exists|c: Correction| #[trigger]
            call_ensures(correct, (group.n_psu, size), c) && action == action_of(
                group.n_psu,
                Some(c),
                lonely_psu,
            ),
        None => action == action_of(group.n_psu, None, lonely_psu),
    }
}

/// Decides what a replicate does to each stratum of a design.
pub fn stratum_actions<C: Fn(usize, u64) -> Correction>(
    groups: &Vec<StratumInfo>,
    lonely_psu: LonelyPsuStrategy,
    correct: &C,
) -> (r: Vec<StratumAction>)
    requires
        forall|n_psu: usize, size: u64| #[trigger] call_requires(*correct, (n_psu, size)),
    ensures
        r@.len() == groups@.len(),
        forall|h: int|
            0 <= h < r@.len() ==> acts(#[trigger] r@[h], groups@[h], lonely_psu, *correct),
        redraws_possible(r@, groups@),
{
    let mut r: Vec<StratumAction> = Vec::new();
    let mut h: usize = 0;
    while h < groups.len()
        invariant
            forall|n_psu: usize, size: u64| #[trigger] call_requires(*correct, (n_psu, size)),
            h <= groups@.len(),
            r@.len() == h,
            forall|g: int|
                0 <= g < h ==> acts(#[trigger] r@[g], groups@[g], lonely_psu, *correct),
            redraws_possible(r@, groups@),
        decreases groups@.len() - h,
    {
        let n_psu: usize = groups[h].n_psu;
        let correction: Option<Correction> = match groups[h].fpc {
            Some(size) => Some((*correct)(n_psu, size)),
            None => None,
        };
        proof {
            law_redraw_is_possible(n_psu, correction, lonely_psu);
        }
        r.push(stratum_action(n_psu, correction, lonely_psu));
        h = h + 1;
    }
    r
}

/// A stratum that is redrawn has a sampling unit to draw.
pub open spec fn redraws_possible(
    actions: Seq<StratumAction>,
    groups: Seq<StratumInfo>,
) -> bool {
    forall|h: int|
        0 <= h < actions.len() ==> (#[trigger] actions[h] matches StratumAction::Redraw(m)
            ==> groups[h].n_psu > 0)
}

/// Numbers of sampling units of the strata.
pub open spec fn sizes_in(groups: Seq<StratumInfo>) -> Seq<usize> {
    Seq::new(groups.len(), |h: int| groups[h].n_psu)
}

/// `new` is `weights` with those of the units whose stratum is resampled rescaled:
/// `rescale` gets the scale of a unit, its weight and the mean weight of a
/// sampling unit.  Every other weight is kept.
pub open spec fn reweights<S: Fn(UnitScale, u64, u64) -> u64>(
    new: Seq<u64>,
    weights: Seq<u64>,
    scales: Seq<UnitScale>,
    mean: u64,
    rescale: S,
) -> bool {
    &&& new.len() == weights.len()
    &&& forall|i: int|
        0 <= i < weights.len() ==> if i < scales.len() && scales[i] != UnitScale::Unchanged {
            call_ensures(rescale, (scales[i], weights[i], mean), #[trigger] new[i])
        } else {
            new[i] == weights[i]
        }
}

/// Weights of the units in a replicate.
pub fn reweight<S: Fn(UnitScale, u64, u64) -> u64>(
    weights: &Vec<u64>,
    scales: &Vec<UnitScale>,
    mean: u64,
    rescale: &S,
) -> (r: Vec<u64>)
    requires
        scales@.len() <= weights@.len(),
        forall|scale: UnitScale, w: u64| #[trigger] call_requires(*rescale, (scale, w, mean)),
    ensures
        reweights(r@, weights@, scales@, mean, *rescale),
{
    let mut r: Vec<u64> = Vec::new();
    let mut i: usize = 0;
    while i < weights.len()
        invariant
            forall|scale: UnitScale, w: u64| #[trigger] call_requires(*rescale, (scale, w, mean)),
            i <= weights@.len(),
            r@.len() == i,
            forall|j: int|
                0 <= j < i ==> if j < scales@.len() && scales@[j] != UnitScale::Unchanged {
                    call_ensures(*rescale, (scales@[j], weights@[j], mean), #[trigger] r@[j])
                } else {
                    r@[j] == weights@[j]
                },
        decreases weights@.len() - i,
    {
        let w: u64 = if i < scales.len() && scales[i] != UnitScale::Unchanged {
            (*rescale)(scales[i], weights[i], mean)
        } else {
            weights[i]
        };
        r.push(w);
        i = i + 1;
    }
    r
}

/// `r` is the estimate of replicate `b` of a survey bootstrap: the weighted
/// average of the effects under resampled weights; nothing where no effect
/// carries weight.
pub open spec fn gives_survey<S: Fn(UnitScale, u64, u64) -> u64, A: Fn(&Aggregation) -> u64>(
    r: Option<u64>,
    effects: Seq<(u64, usize)>,
    groups: Seq<StratumInfo>,
    actions: Seq<StratumAction>,
    n_units: nat,
    weights: Seq<u64>,
    mean: u64,
    seed: u64,
    b: usize,
    rescale: S,
    average: A,
) -> bool {
    exists|drawn: Seq<StratumOutcome>, scales: Seq<UnitScale>, new: Seq<u64>|
        {
            &&& #[trigger] resamples(drawn, actions, sizes_in(groups), seed, b)
            &&& #[trigger] scales_units(scales, groups, drawn, n_units)
            &&& #[trigger] reweights(new, weights, scales, mean, rescale)
            &&& averages(r, effects, Some(new), average)
        }
}

/// Estimate of replicate `b` of a survey bootstrap.
pub fn survey_outcome<S: Fn(UnitScale, u64, u64) -> u64, A: Fn(&Aggregation) -> u64>(
    effects: &Vec<(u64, usize)>,
    groups: &Vec<StratumInfo>,
    actions: &Vec<StratumAction>,
    strata: &Vec<i64>,
    psu: &Vec<i64>,
    weights: &Vec<u64>,
    mean: u64,
    seed: u64,
    b: usize,
    rescale: &S,
    average: &A,
) -> (r: Option<u64>)
    requires
        strata@.len() == psu@.len(),
        weights@.len() >= strata@.len(),
        groups_design(groups@, strata@, psu@),
        actions@.len() == groups@.len(),
        redraws_possible(actions@, groups@),
        forall|scale: UnitScale, w: u64| #[trigger] call_requires(*rescale, (scale, w, mean)),
        forall|a: &Aggregation| #[trigger] call_requires(*average, (a,)),
    ensures
        gives_survey(
            r,
            effects@,
            groups@,
            actions@,
            strata@.len(),
            weights@,
            mean,
            seed,
            b,
            *rescale,
            *average,
        ),
{
    let mut sizes: Vec<usize> = Vec::new();
    let mut h: usize = 0;
    while h < groups.len()
        invariant
            h <= groups@.len(),
            sizes@ == sizes_in(groups@).take(h as int),
        decreases groups@.len() - h,
    {
        sizes.push(groups[h].n_psu);
        h = h + 1;
    }
    assert(sizes@ =~= sizes_in(groups@));
    let drawn: Vec<StratumOutcome> = rao_wu_replicate(actions, &sizes, seed, b);
    let scales: Vec<UnitScale> = unit_scales(groups, &drawn, strata, psu);
    let new: Vec<u64> = reweight(weights, &scales, mean, rescale);
    average_effects(effects, Some(&new), average)
}

/// A replicate in which every stratum keeps its weights is estimated with the
/// weights of the design.
pub proof fn law_kept_strata_keep_weights<
    S: Fn(UnitScale, u64, u64) -> u64,
    A: Fn(&Aggregation) -> u64,
>(
    r: Option<u64>,
    effects: Seq<(u64, usize)>,
    groups: Seq<StratumInfo>,
    actions: Seq<StratumAction>,
    strata: Seq<i64>,
    psu: Seq<i64>,
    weights: Seq<u64>,
    mean: u64,
    seed: u64,
    b: usize,
    rescale: S,
    average: A,
)
    requires
        gives_survey(
            r,
            effects,
            groups,
            actions,
            strata.len(),
            weights,
            mean,
            seed,
            b,
            rescale,
            average,
        ),
        groups_design(groups, strata, psu),
        strata.len() == psu.len(),
        strata.len() <= usize::MAX,
        actions.len() == groups.len(),
        forall|h: int| 0 <= h < actions.len() ==> #[trigger] actions[h] == StratumAction::Keep,
    ensures
        averages(r, effects, Some(weights), average),
{
    let (drawn, scales, new) = choose|
        drawn: Seq<StratumOutcome>,
        scales: Seq<UnitScale>,
        new: Seq<u64>,
    |
        {
            &&& #[trigger] resamples(drawn, actions, sizes_in(groups), seed, b)
            &&& #[trigger] scales_units(scales, groups, drawn, strata.len())
            &&& #[trigger] reweights(new, weights, scales, mean, rescale)
            &&& averages(r, effects, Some(new), average)
        };
    assert forall|i: int| 0 <= i < weights.len() implies new[i] == weights[i] by {
        if i < strata.len() {
            assert(has_stratum(groups, strata[i]));
            let h = choose|h: int|
                0 <= h < groups.len() && (#[trigger] groups[h]).label == strata[i];
            let group = groups[h];
            assert(group.groups_stratum(strata, psu));
            assert(psus_of(strata, psu, group.label).contains(psu[i]));
            assert(group.psu_labels@.contains(psu[i]));
            let k = choose|k: int|
                0 <= k < group.psu_labels@.len() && group.psu_labels@[k] == psu[i];
            assert(group.psu_to_units@[k]@.contains(i as usize));
            assert(actions[h] == StratumAction::Keep);
            assert(drawn[h] == StratumOutcome::Kept);
            assert(scales[i] == UnitScale::Unchanged);
        }
        assert(new[i] == weights[i]);
    }
    assert(new =~= weights);
}

/// Design effect due to unequal weighting: undefined where no unit carries
/// weight, one where a single unit does, and at least one otherwise.
pub open spec fn gives_design_effect<E: Fn(&Vec<u64>) -> u64>(
    r: u64,
    weights: Seq<u64>,
    effect: E,
) -> bool {
    let carrying = weights.filter(|w: u64| bits::positive_finite(w));
    if carrying.len() == 0 {
        r == bits::NAN
    } else if carrying.len() == 1 {
        r == bits::ONE
    } else {
        exists|kept: Vec<u64>, e: u64|
            kept@ == carrying && #[trigger] call_ensures(effect, (&kept,), e) && r == if bits::lt(
                e,
                bits::ONE,
            ) {
                bits::ONE
            } else {
                e
            }
    }
}

/// Design effect due to unequal weighting.  `effect` gets two positive finite
/// weights or more.
pub fn compute_kish_deff<E: Fn(&Vec<u64>) -> u64>(weights: &Vec<u64>, effect: &E) -> (r: u64)
    requires
        forall|v: &Vec<u64>| #[trigger] call_requires(*effect, (v,)),
    ensures
        gives_design_effect(r, weights@, *effect),
{
    match kish_plan(weights) {
        DesignEffect::Undefined => bits::NAN,
        DesignEffect::Unit => bits::ONE,
        DesignEffect::Ratio(kept) => {
            let e: u64 = (*effect)(&kept);
            assert(call_ensures(*effect, (&kept,), e));
            at_least_one(e)
        },
    }
}

/// `sampled` are the strata of a design whose sampling fraction is computed:
/// none without population sizes or without weights.
pub open spec fn samples_strata(
    sampled: Seq<SampledStratum>,
    strata: Seq<i64>,
    psu: Seq<i64>,
    fpc: Option<&Vec<u64>>,
    n_weights: nat,
) -> bool {
    if fpc is None || n_weights == 0 {
        sampled.len() == 0
    } else {
        exists|groups: Seq<StratumInfo>| #[trigger]
            describes_design(groups, strata, psu, sizes_of(fpc)) && sampled == sampled_of(
                groups,
                strata,
            )
    }
}

/// Diagnostics of a survey design.  `effect` is as for [`compute_kish_deff`],
/// `fraction` gives the sampling fraction of a stratum.
pub fn compute_survey_diagnostics<E: Fn(&Vec<u64>) -> u64, F: Fn(usize, u64) -> u64>(
    strata: &Vec<i64>,
    psu: &Vec<i64>,
    fpc: Option<&Vec<u64>>,
    weights: &Vec<u64>,
    effect: &E,
    fraction: &F,
) -> (r: SurveyDiagnostics)
    requires
        fpc is Some && weights@.len() > 0 ==> strata@.len() == psu@.len() && fpc->0@.len()
            >= strata@.len(),
        forall|v: &Vec<u64>| #[trigger] call_requires(*effect, (v,)),
        forall|n: usize, size: u64| #[trigger] call_requires(*fraction, (n, size)),
    ensures
        gives_design_effect(r.deff_weights, weights@, *effect),
        exists|sampled: Seq<SampledStratum>, fractions: Seq<u64>|
            {
                &&& #[trigger] samples_strata(sampled, strata@, psu@, fpc, weights@.len())
                &&& fractions.len() == sampled.len()
                &&& forall|k: int|
                    0 <= k < sampled.len() ==> call_ensures(
                        *fraction,
                        (sampled[k].n_h, sampled[k].big_n_h),
                        #[trigger] fractions[k],
                    )
                &&& r.high_fpc_strata@ == #[trigger] high_of(sampled, fractions)
                &&& r.n_high_fpc == high_of(sampled, fractions).len()
                &&& r.max_fh == if largest_of(fractions) == NEG_INFINITY {
                    bits::NAN
                } else {
                    largest_of(fractions)
                }
            },
{
    let deff: u64 = compute_kish_deff(weights, effect);
    let sampled: Vec<SampledStratum> = match fpc {
        Some(sizes) if weights.len() > 0 => {
            let groups: Vec<StratumInfo> = describe_design(strata, psu, Some(sizes));
            proof {
                lemma_labels_occur(groups@, strata@, psu@);
            }
            let sampled: Vec<SampledStratum> = sampled_strata(&groups, strata);
            assert(describes_design(groups@, strata@, psu@, sizes_of(fpc)));
            sampled
        },
        _ => Vec::new(),
    };
    assert(samples_strata(sampled@, strata@, psu@, fpc, weights@.len()));
    let mut fractions: Vec<u64> = Vec::new();
    let mut k: usize = 0;
    while k < sampled.len()
        invariant
            forall|n: usize, size: u64| #[trigger] call_requires(*fraction, (n, size)),
            k <= sampled@.len(),
            fractions@.len() == k,
            forall|j: int|
                0 <= j < k ==> call_ensures(
                    *fraction,
                    (sampled@[j].n_h, sampled@[j].big_n_h),
                    #[trigger] fractions@[j],
                ),
        decreases sampled@.len() - k,
    {
        let f: u64 = (*fraction)(sampled[k].n_h, sampled[k].big_n_h);
        fractions.push(f);
        k = k + 1;
    }
    collect_diagnostics(deff, &sampled, &fractions)
}

/// In a replicate a stratum without a population size that has `n >= 2` sampling
/// units is always redrawn, and the counts of its units sum to `n - 1`; it keeps
/// its weights only where it has fewer than two or was sampled completely.
pub proof fn law_replicates_redraw_strata<C: Fn(usize, u64) -> Correction>(
    groups: &Vec<StratumInfo>,
    lonely_psu: LonelyPsuStrategy,
    correct: &C,
    actions: &Vec<StratumAction>,
    sizes: &Vec<usize>,
    seed: u64,
    b: usize,
    outcomes: Vec<StratumOutcome>,
    h: int,
)
    requires
        call_ensures(stratum_actions::<C>, (groups, lonely_psu, correct), *actions),
        call_ensures(rao_wu_replicate, (actions, sizes, seed, b), outcomes),
        0 <= h < groups@.len(),
        sizes@.len() == groups@.len(),
        sizes@[h] == groups@[h].n_psu,
    ensures
        outcomes@.len() == groups@.len(),
        groups@[h].n_psu >= 2 && groups@[h].fpc is None ==> (
        outcomes@[h] matches StratumOutcome::Redrawn(counts, m) && m == groups@[h].n_psu - 1
            && counts@.len() == groups@[h].n_psu && counts@.fold_left(
            0int,
            |sum: int, count: usize| sum + count,
        ) == groups@[h].n_psu - 1),
        outcomes@[h] is Kept ==> groups@[h].n_psu < 2 || (groups@[h].fpc matches Some(size)
            && exists|c: Correction| #[trigger]
            call_ensures(*correct, (groups@[h].n_psu, size), c) && bits::le(
                bits::ONE,
                c.fraction,
            )),
        groups@[h].n_psu >= 2 && !(outcomes@[h] is Kept) ==> outcomes@[h] is Redrawn,
        groups@[h].n_psu < 2 ==> (outcomes@[h] is Perturbed <==> lonely_psu
            == LonelyPsuStrategy::Centered),
{
    crate::survey::law_replicate_carries_out_actions(actions, sizes, seed, b, outcomes, h);
    assert(acts(actions@[h], groups@[h], lonely_psu, *correct));
}

/// The weight of a unit of a resampled stratum is rescaled from its own weight;
/// every other weight is kept.
pub proof fn law_reweighting<S: Fn(UnitScale, u64, u64) -> u64>(
    weights: &Vec<u64>,
    scales: &Vec<UnitScale>,
    mean: u64,
    rescale: &S,
    r: Vec<u64>,
    i: int,
)
    requires
        call_ensures(reweight::<S>, (weights, scales, mean, rescale), r),
        0 <= i < weights@.len(),
    ensures
        r@.len() == weights@.len(),
        i >= scales@.len() || scales@[i] == UnitScale::Unchanged ==> r@[i] == weights@[i],
        i < scales@.len() && scales@[i] != UnitScale::Unchanged ==> call_ensures(
            *rescale,
            (scales@[i], weights@[i], mean),
            r@[i],
        ),
{
    assert(reweights(r@, weights@, scales@, mean, *rescale));
    assert(r@[i] == r@[i]);
}

/// The design effect is undefined without a positive finite weight, one with a
/// single one, and otherwise that of all of them, raised to one where it is less.
pub proof fn law_design_effect<E: Fn(&Vec<u64>) -> u64>(weights: &Vec<u64>, effect: &E, r: u64)
    requires
        call_ensures(compute_kish_deff::<E>, (weights, effect), r),
    ensures
        ({
            let carrying = weights@.filter(|w: u64| bits::finite(w) && bits::lt(bits::ZERO, w));
            &&& carrying.len() == 0 ==> r == bits::NAN
            &&& carrying.len() == 1 ==> r == bits::ONE
            &&& carrying.len() >= 2 ==> exists|kept: Vec<u64>, e: u64|
                kept@ == carrying && #[trigger] call_ensures(*effect, (&kept,), e) && (bits::lt(
                    e,
                    bits::ONE,
                ) ==> r == bits::ONE) && (!bits::lt(e, bits::ONE) ==> r == e)
        }),
{
    assert((|w: u64| bits::finite(w) && bits::lt(bits::ZERO, w)) =~= (|w: u64|
        bits::positive_finite(w)));
}

/// The action on every stratum is the one decided for its number of sampling units,
/// and its correction where it has a population size.
pub proof fn law_actions_of_a_design<C: Fn(usize, u64) -> Correction>(
    groups: &Vec<StratumInfo>,
    lonely_psu: LonelyPsuStrategy,
    correct: &C,
    r: Vec<StratumAction>,
    h: int,
    plain: StratumAction,
)
    requires
        call_ensures(stratum_actions::<C>, (groups, lonely_psu, correct), r),
        0 <= h < groups@.len(),
        call_ensures(stratum_action, (groups@[h].n_psu, None, lonely_psu), plain),
    ensures
        r@.len() == groups@.len(),
        groups@[h].fpc is None ==> r@[h] == plain,
        groups@[h].fpc matches Some(size) ==> exists|c: Correction|
            {
                &&& #[trigger] call_ensures(*correct, (groups@[h].n_psu, size), c)
                &&& groups@[h].n_psu < 2 ==> r@[h] == plain
                &&& groups@[h].n_psu >= 2 ==> (r@[h] is Keep <==> bits::le(bits::ONE, c.fraction))
                &&& groups@[h].n_psu >= 2 ==> !(r@[h] is Perturb)
            },
{
    assert(acts(r@[h], groups@[h], lonely_psu, *correct));
}

/// The estimate of a replicate averages the effects under weights rescaled by what
/// the replicate did to every stratum.
pub proof fn law_survey_estimate<S: Fn(UnitScale, u64, u64) -> u64, A: Fn(&Aggregation) -> u64>(
    r: Option<u64>,
    effects: Seq<(u64, usize)>,
    groups: Seq<StratumInfo>,
    actions: Seq<StratumAction>,
    n_units: nat,
    weights: Seq<u64>,
    mean: u64,
    seed: u64,
    b: usize,
    rescale: S,
    average: A,
)
    requires
        gives_survey(
            r,
            effects,
            groups,
            actions,
            n_units,
            weights,
            mean,
            seed,
            b,
            rescale,
            average,
        ),
    ensures
        exists|
            drawn: Seq<StratumOutcome>,
            scales: Seq<UnitScale>,
            new: Seq<u64>,
            sizes: Seq<usize>,
        |
            {
                &&& sizes.len() == groups.len()
                &&& forall|h: int|
                    0 <= h < groups.len() ==> #[trigger] sizes[h] == groups[h].n_psu
                &&& #[trigger] resamples(drawn, actions, sizes, seed, b)
                &&& #[trigger] scales_units(scales, groups, drawn, n_units)
                &&& new.len() == weights.len()
                &&& #[trigger] reweights(new, weights, scales, mean, rescale)
                &&& averages(r, effects, Some(new), average)
            },
{
    let (drawn, scales, new) = choose|
        drawn: Seq<StratumOutcome>,
        scales: Seq<UnitScale>,
        new: Seq<u64>,
    |
        {
            &&& #[trigger] resamples(drawn, actions, sizes_in(groups), seed, b)
            &&& #[trigger] scales_units(scales, groups, drawn, n_units)
            &&& #[trigger] reweights(new, weights, scales, mean, rescale)
            &&& averages(r, effects, Some(new), average)
        };
    let sizes = sizes_in(groups);
    assert(resamples(drawn, actions, sizes, seed, b));
}

/// A survey is planned exactly where there is an effect to average and its design
/// is not refused.
pub proof fn law_survey_is_planned(
    effects: &Vec<(u64, usize)>,
    strata: &Vec<i64>,
    psu: &Vec<i64>,
    fpc: Option<&Vec<u64>>,
    lonely_psu: LonelyPsuStrategy,
    r: TropResult<Option<Vec<StratumInfo>>>,
    prepared: TropResult<Vec<StratumInfo>>,
)
    requires
        call_ensures(plan_resampling, (effects, strata, psu, fpc, lonely_psu), r),
        call_ensures(prepare_design, (strata, psu, fpc, lonely_psu), prepared),
    ensures
        effects@.len() == 0 ==> r matches Ok(None),
        effects@.len() > 0 ==> (prepared matches Err(e) ==> r is Err && r->Err_0 == e),
        effects@.len() > 0 && prepared is Ok ==> (r matches Ok(Some(groups))
            && describes_design(groups@, strata@, psu@, sizes_of(fpc))),
{
}

/// Sampling fractions are computed for the strata of the design where there are
/// population sizes and weights, and for none otherwise.
pub proof fn law_fractions_are_computed(
    sampled: Seq<SampledStratum>,
    strata: Seq<i64>,
    psu: Seq<i64>,
    fpc: Option<&Vec<u64>>,
    n_weights: nat,
)
    requires
        samples_strata(sampled, strata, psu, fpc, n_weights),
    ensures
        fpc is None || n_weights == 0 ==> sampled.len() == 0,
        fpc is Some && n_weights > 0 ==> exists|groups: Seq<StratumInfo>| #[trigger]
            describes_design(groups, strata, psu, sizes_of(fpc)) && sampled == sampled_of(
                groups,
                strata,
            ),
{
}

} // verus!

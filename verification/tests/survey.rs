use rand::{Rng, SeedableRng};
use rand_xoshiro::Xoshiro256PlusPlus;
use trop::error::TropError;
use trop::survey::{
    at_least_one, build_strata_structure, check_singletons, collect_diagnostics, describe_design,
    detect_high_fpc_strata, kish_plan, order_of_appearance, prepare_design, rao_wu_replicate,
    sampled_strata, stratum_action, tally, unit_scales, Correction, DesignEffect,
    LonelyPsuStrategy, StratumAction, StratumOutcome, UnitScale,
};

fn bits(values: &[f64]) -> Vec<u64> {
    values.iter().map(|v| v.to_bits()).collect()
}

/// Two strata: label 3 with sampling units 1 and 2, label 8 with unit 5 only.
fn design() -> (Vec<i64>, Vec<i64>) {
    (vec![3, 8, 3, 3], vec![2, 5, 1, 2])
}

#[test]
fn strategies_by_code() {
    assert_eq!(LonelyPsuStrategy::from_code(0), LonelyPsuStrategy::Skip);
    assert_eq!(LonelyPsuStrategy::from_code(1), LonelyPsuStrategy::Centered);
    assert_eq!(LonelyPsuStrategy::from_code(2), LonelyPsuStrategy::Fail);
    assert_eq!(LonelyPsuStrategy::from_code(-7), LonelyPsuStrategy::Skip);
}

#[test]
fn strata_and_sampling_units_are_ordered_by_label() {
    let (strata, psu) = design();
    let groups = build_strata_structure(&strata, &psu, None).unwrap();
    assert_eq!(groups.len(), 2);
    assert_eq!((groups[0].label, groups[0].n_psu, groups[0].fpc), (3, 2, None));
    assert_eq!(groups[0].psu_labels, vec![1, 2]);
    assert_eq!(groups[0].psu_to_units, vec![vec![2], vec![0, 3]]);
    assert_eq!((groups[1].label, groups[1].n_psu), (8, 1));
    assert_eq!(groups[1].psu_to_units, vec![vec![1]]);
    assert!(describe_design(&vec![], &vec![], None).is_empty());
}

#[test]
fn every_unit_is_in_one_sampling_unit() {
    let strata = vec![1, 2, 1, 2, 1, 2, 2];
    let psu = vec![4, 4, 4, 7, 6, 7, 9];
    let groups = describe_design(&strata, &psu, None);
    let mut units: Vec<usize> =
        groups.iter().flat_map(|g| g.psu_to_units.iter().flatten().copied()).collect();
    units.sort();
    assert_eq!(units, vec![0, 1, 2, 3, 4, 5, 6]);
    for g in &groups {
        assert_eq!(g.n_psu, g.psu_to_units.len());
    }
}

#[test]
fn population_sizes_come_from_the_first_unit() {
    let (strata, psu) = design();
    let fpc = bits(&[10.0, 4.0, 99.0, 99.0]);
    let groups = build_strata_structure(&strata, &psu, Some(&fpc)).unwrap();
    assert_eq!(groups[0].fpc, Some(10.0_f64.to_bits()));
    assert_eq!(groups[1].fpc, Some(4.0_f64.to_bits()));
}

#[test]
fn population_sizes_below_the_sample_are_refused() {
    let (strata, psu) = design();
    for bad in [1.0, 0.0, -3.0, f64::NAN, f64::INFINITY] {
        let fpc = bits(&[bad, 4.0, 10.0, 10.0]);
        let r = build_strata_structure(&strata, &psu, Some(&fpc));
        assert_eq!(r.err(), Some(TropError::InvalidFpc), "size {}", bad);
    }
    let census = bits(&[2.0, 1.0, 2.0, 2.0]);
    assert!(build_strata_structure(&strata, &psu, Some(&census)).is_ok());
}

#[test]
fn singletons_are_refused_on_request() {
    let (strata, psu) = design();
    let groups = describe_design(&strata, &psu, None);
    assert_eq!(
        check_singletons(&groups, LonelyPsuStrategy::Fail),
        Err(TropError::SingletonPsu)
    );
    assert_eq!(check_singletons(&groups, LonelyPsuStrategy::Skip), Ok(()));
    assert_eq!(check_singletons(&groups, LonelyPsuStrategy::Centered), Ok(()));
    let pairs = describe_design(&vec![1, 1], &vec![1, 2], None);
    assert_eq!(check_singletons(&pairs, LonelyPsuStrategy::Fail), Ok(()));
}

#[test]
fn population_sizes_are_checked_before_singletons() {
    let (strata, psu) = design();
    let bad = bits(&[1.0, 4.0, 1.0, 1.0]);
    let r = prepare_design(&strata, &psu, Some(&bad), LonelyPsuStrategy::Fail);
    assert_eq!(r.err(), Some(TropError::InvalidFpc));
    let r = prepare_design(&strata, &psu, None, LonelyPsuStrategy::Fail);
    assert_eq!(r.err(), Some(TropError::SingletonPsu));
    let r = prepare_design(&strata, &psu, None, LonelyPsuStrategy::Skip);
    assert_eq!(r.unwrap().len(), 2);
}

fn correction(n: f64, size: f64) -> Option<Correction> {
    let fraction = n / size;
    Some(Correction {
        fraction: fraction.to_bits(),
        draws: ((1.0 - fraction) * (n - 1.0)).to_bits(),
    })
}

#[test]
fn actions_on_strata() {
    let skip = LonelyPsuStrategy::Skip;
    assert_eq!(stratum_action(1, None, skip), StratumAction::Keep);
    assert_eq!(stratum_action(1, None, LonelyPsuStrategy::Centered), StratumAction::Perturb);
    assert_eq!(stratum_action(5, None, skip), StratumAction::Redraw(4));
    assert_eq!(stratum_action(5, correction(5.0, 10.0), skip), StratumAction::Redraw(2));
    assert_eq!(stratum_action(6, correction(6.0, 12.0), skip), StratumAction::Redraw(3));
    assert_eq!(stratum_action(5, correction(5.0, 5.0), skip), StratumAction::Keep);
    assert_eq!(stratum_action(5, correction(5.0, 5.1), skip), StratumAction::Redraw(1));
    assert_eq!(stratum_action(5, correction(5.0, 1e9), skip), StratumAction::Redraw(4));
}

#[test]
fn draws_are_counted() {
    assert_eq!(tally(&vec![2, 0, 2, 2], 4), vec![1, 0, 3, 0]);
    assert_eq!(tally(&vec![], 2), vec![0, 0]);
}

#[test]
fn replicates_follow_the_generator() {
    let actions = vec![
        StratumAction::Redraw(4),
        StratumAction::Keep,
        StratumAction::Perturb,
        StratumAction::Redraw(2),
    ];
    let sizes = vec![5, 3, 1, 3];
    let mut rng = Xoshiro256PlusPlus::seed_from_u64(103);
    let mut first = vec![0_usize; 5];
    for _ in 0..4 {
        first[rng.gen_range(0..5)] += 1;
    }
    let up = rng.gen_bool(0.5);
    let mut last = vec![0_usize; 3];
    for _ in 0..2 {
        last[rng.gen_range(0..3)] += 1;
    }
    let outcomes = rao_wu_replicate(&actions, &sizes, 100, 3);
    assert_eq!(outcomes.len(), 4);
    assert!(matches!(&outcomes[0], StratumOutcome::Redrawn(c, 4) if *c == first));
    assert!(matches!(outcomes[1], StratumOutcome::Kept));
    assert!(matches!(outcomes[2], StratumOutcome::Perturbed(u) if u == up));
    assert!(matches!(&outcomes[3], StratumOutcome::Redrawn(c, 2) if *c == last));
}

#[test]
fn coins_fall_both_ways() {
    let mut ups = 0;
    for b in 0..200 {
        let outcomes = rao_wu_replicate(&vec![StratumAction::Perturb], &vec![1], 5, b);
        if matches!(outcomes[0], StratumOutcome::Perturbed(true)) {
            ups += 1;
        }
    }
    assert!(ups > 60 && ups < 140, "{} of 200", ups);
}

#[test]
fn outcomes_reach_the_units() {
    let (strata, psu) = design();
    let groups = describe_design(&strata, &psu, None);
    let outcomes = vec![
        StratumOutcome::Redrawn(vec![0, 1], 1),
        StratumOutcome::Perturbed(false),
    ];
    let scales = unit_scales(&groups, &outcomes, &strata, &psu);
    assert_eq!(
        scales,
        vec![
            UnitScale::Rescaled { n_psu: 2, draws: 1, count: 1 },
            UnitScale::Perturbed(false),
            UnitScale::Rescaled { n_psu: 2, draws: 1, count: 0 },
            UnitScale::Rescaled { n_psu: 2, draws: 1, count: 1 },
        ]
    );
    let kept = vec![StratumOutcome::Kept, StratumOutcome::Kept];
    assert_eq!(unit_scales(&groups, &kept, &strata, &psu), vec![UnitScale::Unchanged; 4]);
}

#[test]
fn design_effects_run_over_positive_weights() {
    assert!(matches!(kish_plan(&vec![]), DesignEffect::Undefined));
    assert!(matches!(kish_plan(&bits(&[0.0, -1.0, f64::NAN])), DesignEffect::Undefined));
    assert!(matches!(kish_plan(&bits(&[0.0, 2.0])), DesignEffect::Unit));
    match kish_plan(&bits(&[1.0, 0.0, 3.0, f64::INFINITY])) {
        DesignEffect::Ratio(kept) => assert_eq!(kept, bits(&[1.0, 3.0])),
        _ => panic!("two weights are positive"),
    }
    assert_eq!(at_least_one(0.999_f64.to_bits()), 1.0_f64.to_bits());
    assert_eq!(at_least_one(1.25_f64.to_bits()), 1.25_f64.to_bits());
}

#[test]
fn sampling_fractions_above_one_half_are_reported() {
    let strata = vec![1, 1, 2, 2, 3, 3];
    let psu = vec![1, 2, 3, 4, 5, 6];
    let fpc = bits(&[3.0, 3.0, -1.0, -1.0, 20.0, 20.0]);
    let groups = describe_design(&strata, &psu, Some(&fpc));
    let sampled = sampled_strata(&groups, &strata);
    assert_eq!(sampled.len(), 2);
    assert_eq!((sampled[0].stratum_index, sampled[0].n_h), (1, 2));
    assert_eq!((sampled[1].stratum_index, sampled[1].n_h), (3, 2));
    let fractions: Vec<u64> = sampled
        .iter()
        .map(|s| (s.n_h as f64 / f64::from_bits(s.big_n_h)).to_bits())
        .collect();
    let (high, largest) = detect_high_fpc_strata(&sampled, &fractions);
    assert_eq!(high.len(), 1);
    assert_eq!((high[0].stratum_index, high[0].n_h), (1, 2));
    assert_eq!(f64::from_bits(high[0].f_h), 2.0 / 3.0);
    assert_eq!(f64::from_bits(high[0].big_n_h), 3.0);
    assert_eq!(f64::from_bits(largest), 2.0 / 3.0);
    let d = collect_diagnostics(1.5_f64.to_bits(), &sampled, &fractions);
    assert_eq!((d.n_high_fpc, d.max_fh, d.deff_weights), (1, largest, 1.5_f64.to_bits()));
}

#[test]
fn no_population_size_leaves_the_fraction_undefined() {
    let (high, largest) = detect_high_fpc_strata(&vec![], &vec![]);
    assert!(high.is_empty());
    assert!(f64::from_bits(largest).is_nan());
    let groups = describe_design(&vec![1], &vec![1], None);
    assert!(sampled_strata(&groups, &vec![1]).is_empty());
}

#[test]
fn strata_are_numbered_in_the_order_of_appearance() {
    let strata = vec![20, 20, -3, 20, 10, -3];
    assert_eq!(order_of_appearance(&strata, 20), 1);
    assert_eq!(order_of_appearance(&strata, -3), 2);
    assert_eq!(order_of_appearance(&strata, 10), 3);
    let psu = vec![1, 2, 3, 4, 5, 6];
    let fpc = bits(&[4.0, 4.0, 2.0, 4.0, 1.0, 2.0]);
    let groups = describe_design(&strata, &psu, Some(&fpc));
    let sampled = sampled_strata(&groups, &strata);
    let indices: Vec<usize> = sampled.iter().map(|s| s.stratum_index).collect();
    assert_eq!(indices, vec![2, 3, 1]);
}

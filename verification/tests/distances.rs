use trop::distance::{
    compute_unit_distance_for_obs, mirror, sanitize, sanitize_table, Separation, UnitDistanceCache,
};
use trop::kernels::{compute_pair_distance, compute_unit_distance_matrix_internal};
use trop::matrix::Matrix;

fn table(rows: &[&[f64]]) -> Matrix<u64> {
    let cols = rows[0].len();
    let data = rows.iter().flat_map(|r| r.iter().map(|v| v.to_bits())).collect();
    Matrix::from_rows(rows.len(), cols, data).unwrap()
}

fn zeros(rows: usize, cols: usize) -> Matrix<u64> {
    Matrix::from_rows(rows, cols, vec![0; rows * cols]).unwrap()
}

/// Root mean square of the differences over the compared periods.
fn value(y: &Matrix<u64>, a: usize, b: usize, s: &Separation) -> f64 {
    match s {
        Separation::Zero => 0.0,
        Separation::Unreachable => f64::INFINITY,
        Separation::Periods(periods) => {
            let sum: f64 = periods
                .iter()
                .map(|&t| (f64::from_bits(y.get(t, a)) - f64::from_bits(y.get(t, b))).powi(2))
                .sum();
            (sum / periods.len() as f64).sqrt()
        }
    }
}

fn direct(y: &Matrix<u64>, d: &Matrix<u64>, j: usize, i: usize, target: usize) -> f64 {
    value(y, j, i, &compute_unit_distance_for_obs(y, d, j, i, target))
}

/// Root mean square of the differences of some pairs.
fn rms(pairs: &Vec<(u64, u64)>) -> u64 {
    let sum: f64 =
        pairs.iter().map(|&(a, b)| (f64::from_bits(a) - f64::from_bits(b)).powi(2)).sum();
    (sum / pairs.len() as f64).sqrt().to_bits()
}

fn on_demand(c: &UnitDistanceCache, i: usize, j: usize, exclude: Option<usize>) -> f64 {
    f64::from_bits(compute_pair_distance(c, i, j, exclude, &rms))
}

fn cached(c: &UnitDistanceCache, j: usize, i: usize, target: usize) -> f64 {
    value(&c.y, j, i, &c.distance(j, i, target))
}

/// Distances between all pairs of units.
fn distance_matrix(y: &Matrix<u64>, d: &Matrix<u64>) -> Vec<Vec<f64>> {
    let n = y.cols;
    let m = compute_unit_distance_matrix_internal(y, d, &rms);
    (0..n).map(|a| (0..n).map(|b| f64::from_bits(m.get(a, b))).collect()).collect()
}

/// Two units with validity flags of their own.
fn pair(valid_j: [bool; 4], valid_i: [bool; 4]) -> UnitDistanceCache {
    let y = table(&[&[1.0, 1.5], &[2.0, 2.5], &[3.0, 3.5], &[4.0, 4.5]]);
    let flags = (0..4).flat_map(|t| [valid_j[t], valid_i[t]]).collect();
    UnitDistanceCache { y, valid: Matrix::from_rows(4, 2, flags).unwrap() }
}

fn reference_panel() -> (Matrix<u64>, Matrix<u64>) {
    let y = table(&[
        &[0.496714153011233, 0.361735698828815, 1.647688538100692, 3.023029856408026],
        &[-0.234153374723336, 0.265863043050819, 2.579212815507391, 2.267434729152909],
        &[-0.469474385934952, 1.042560043585965, 0.536582307187538, 1.034270246429743],
        &[0.241962271566034, -1.413280244657798, -0.724917832513033, 0.937712470759027],
        &[-1.012831120334424, 0.814247332595274, 0.091975924478789, 0.087696298664708],
    ]);
    let d = table(&[
        &[0.0, 0.0, 0.0, 0.0],
        &[0.0, 0.0, 0.0, 0.0],
        &[0.0, 0.0, 0.0, 0.0],
        &[0.0, 0.0, 1.0, 0.0],
        &[0.0, 0.0, 1.0, 0.0],
    ]);
    (y, d)
}

#[test]
fn test_compute_pair_distance_constant_diff() {
    let c = pair([true, true, true, true], [true, true, true, true]);
    let dist = on_demand(&c, 0, 1, None);
    assert!((dist - 0.5).abs() < 1e-10);
}

#[test]
fn test_compute_pair_distance_partial_overlap() {
    let c = pair([true, true, false, false], [true, false, true, false]);
    assert_eq!(c.compute_distance(0, 1, None), Separation::Periods(vec![0]));
    let dist = on_demand(&c, 0, 1, None);
    assert!((dist - 0.5).abs() < 1e-10);
}

#[test]
fn test_compute_pair_distance_no_overlap() {
    let c = pair([true, true, false, false], [false, false, true, true]);
    let dist = on_demand(&c, 0, 1, None);
    assert!(dist.is_infinite());
}

#[test]
fn test_unit_distance_matrix_diagonal_zero() {
    let y = table(&[&[1.0, 2.0, 3.0], &[4.0, 5.0, 6.0]]);
    let dist = distance_matrix(&y, &zeros(2, 3));
    for i in 0..3 {
        assert!((dist[i][i]).abs() < 1e-10);
    }
}

#[test]
fn test_unit_distance_matrix_symmetric() {
    let y = table(&[&[1.0, 2.0, 3.0], &[4.0, 5.0, 6.0], &[7.0, 8.0, 9.0]]);
    let dist = distance_matrix(&y, &zeros(3, 3));
    for i in 0..3 {
        for j in 0..3 {
            assert!((dist[i][j] - dist[j][i]).abs() < 1e-10);
        }
    }
    assert!((dist[0][2] - 2.0).abs() < 1e-10);
}

#[test]
fn test_unit_distance_for_obs_excludes_target() {
    let y = table(&[&[1.0, 1.5], &[2.0, 2.5], &[3.0, 3.5], &[4.0, 4.5]]);
    let d = zeros(4, 2);

    let dist_ex0 = direct(&y, &d, 0, 1, 0);
    assert!((dist_ex0 - 0.5).abs() < 1e-10);

    let dist_ex2 = direct(&y, &d, 0, 1, 2);
    assert!((dist_ex2 - 0.5).abs() < 1e-10);

    let dist_full = direct(&y, &d, 0, 1, 999);
    assert!((dist_full - 0.5).abs() < 1e-10);

    assert_eq!(
        compute_unit_distance_for_obs(&y, &d, 0, 1, 2),
        Separation::Periods(vec![0, 1, 3])
    );
    assert_eq!(
        compute_unit_distance_for_obs(&y, &d, 0, 1, 999),
        Separation::Periods(vec![0, 1, 2, 3])
    );
}

#[test]
fn test_distance_numerical_reference() {
    let (y, d) = reference_panel();

    let dist_02_ex3 = direct(&y, &d, 0, 2, 3);
    assert!(
        (dist_02_ex3 - 1.848595992029445).abs() < 1e-10,
        "dist(0, 2, ex_t=3): got {:.15}, expected 1.848595992029445",
        dist_02_ex3
    );

    let dist_12_ex3 = direct(&y, &d, 1, 2, 3);
    assert!(
        (dist_12_ex3 - 1.555771549669933).abs() < 1e-10,
        "dist(1, 2, ex_t=3): got {:.15}, expected 1.555771549669933",
        dist_12_ex3
    );

    let dist_01_ex2 = direct(&y, &d, 0, 1, 2);
    assert!(
        (dist_01_ex2 - 1.259591110421568).abs() < 1e-10,
        "dist(0, 1, ex_t=2): got {:.15}, expected 1.259591110421568",
        dist_01_ex2
    );
}

#[test]
fn test_unit_distance_for_obs_with_treated_periods() {
    let y = table(&[&[1.0, 1.5], &[2.0, 2.5], &[3.0, 3.5], &[4.0, 4.5]]);
    let d = table(&[&[0.0, 0.0], &[0.0, 0.0], &[0.0, 1.0], &[0.0, 1.0]]);

    let dist = direct(&y, &d, 0, 1, 999);
    assert!((dist - 0.5).abs() < 1e-10);

    let dist_ex0 = direct(&y, &d, 0, 1, 0);
    assert!((dist_ex0 - 0.5).abs() < 1e-10);

    let dist_ex1 = direct(&y, &d, 0, 1, 1);
    assert!((dist_ex1 - 0.5).abs() < 1e-10);

    assert_eq!(
        compute_unit_distance_for_obs(&y, &d, 0, 1, 0),
        Separation::Periods(vec![1])
    );
}

#[test]
fn test_unit_distance_cache_matches_direct() {
    let (y, d) = reference_panel();
    let cache = UnitDistanceCache::build(&y, &d);
    for target_period in 0..5 {
        for i in 0..4 {
            for j in 0..4 {
                let direct = direct(&y, &d, j, i, target_period);
                let cached = cached(&cache, j, i, target_period);
                if direct.is_infinite() {
                    assert!(
                        cached.is_infinite(),
                        "Cached distance at (t={}, i={}, j={}) should be inf, got {}",
                        target_period,
                        i,
                        j,
                        cached
                    );
                } else {
                    assert!(
                        (direct - cached).abs() < 1e-10,
                        "Cached distance mismatch at (t={}, i={}, j={}): direct={}, cached={}",
                        target_period,
                        i,
                        j,
                        direct,
                        cached
                    );
                }
            }
        }
    }
}

#[test]
fn test_unit_distance_cache_respects_treatment_mask() {
    let y = table(&[&[1.0, 1.5, 0.0], &[2.0, 2.5, 0.0], &[3.0, 3.5, 0.0], &[4.0, 4.5, 0.0]]);
    let d = table(&[&[0.0, 0.0, 0.0], &[0.0, 0.0, 0.0], &[0.0, 0.0, 1.0], &[0.0, 0.0, 1.0]]);
    let cache = UnitDistanceCache::build(&y, &d);

    for t in 0..4 {
        let direct = direct(&y, &d, 0, 1, t);
        let cached = cached(&cache, 0, 1, t);
        assert!((direct - cached).abs() < 1e-10);
        assert!((direct - 0.5).abs() < 1e-10);
    }

    let direct_ex0 = direct(&y, &d, 0, 2, 0);
    let cached_ex0 = cached(&cache, 0, 2, 0);
    assert!((direct_ex0 - cached_ex0).abs() < 1e-10);
}

#[test]
fn test_unit_distance_cache_sole_valid_period() {
    let nan = f64::NAN;
    let y = table(&[&[nan, nan], &[nan, nan], &[1.0, 2.0], &[nan, nan]]);
    let cache = UnitDistanceCache::build(&y, &zeros(4, 2));

    let cached_ex2 = cached(&cache, 0, 1, 2);
    assert!(cached_ex2.is_infinite());

    let cached_ex0 = cached(&cache, 0, 1, 0);
    assert!((cached_ex0 - 1.0).abs() < 1e-10);
}

#[test]
fn test_compute_distance_matches_direct() {
    let (y, d) = reference_panel();
    let cache = UnitDistanceCache::build(&y, &d);
    for target_period in 0..5 {
        for i in 0..4 {
            for j in 0..4 {
                let direct = direct(&y, &d, j, i, target_period);
                let on_demand = on_demand(&cache, i, j, Some(target_period));
                if direct.is_infinite() {
                    assert!(
                        on_demand.is_infinite(),
                        "compute_distance at (t={}, i={}, j={}) should be inf, got {}",
                        target_period,
                        i,
                        j,
                        on_demand
                    );
                } else {
                    assert!(
                        (direct - on_demand).abs() < 1e-14,
                        "compute_distance mismatch at (t={}, i={}, j={}): {} and {}",
                        target_period,
                        i,
                        j,
                        direct,
                        on_demand
                    );
                }
            }
        }
    }
}

#[test]
fn test_compute_distance_no_exclusion() {
    let y = table(&[&[1.0, 1.5], &[2.0, 2.5], &[3.0, 3.5], &[4.0, 4.5]]);
    let cache = UnitDistanceCache::build(&y, &zeros(4, 2));
    let dist = on_demand(&cache, 0, 1, None);
    assert!((dist - 0.5).abs() < 1e-14);
}

#[test]
fn test_compute_distance_symmetry() {
    let y = table(&[
        &[0.496714153011233, 0.361735698828815, 1.647688538100692],
        &[-0.234153374723336, 0.265863043050819, 2.579212815507391],
        &[-0.469474385934952, 1.042560043585965, 0.536582307187538],
    ]);
    let d = table(&[&[0.0, 0.0, 0.0], &[0.0, 0.0, 0.0], &[0.0, 0.0, 1.0]]);
    let cache = UnitDistanceCache::build(&y, &d);
    for t in 0..3 {
        for i in 0..3 {
            for j in 0..3 {
                let a = on_demand(&cache, i, j, Some(t));
                let b = on_demand(&cache, j, i, Some(t));
                if a.is_infinite() {
                    assert!(b.is_infinite(), "symmetry broken at (i={}, j={}, t={})", i, j, t);
                } else {
                    assert!(
                        (a - b).abs() < 1e-14,
                        "symmetry broken at (i={}, j={}, t={}): {} vs {}",
                        i,
                        j,
                        t,
                        a,
                        b
                    );
                }
                assert_eq!(
                    cache.compute_distance(i, j, Some(t)),
                    cache.compute_distance(j, i, Some(t))
                );
            }
        }
    }
}

#[test]
fn test_compute_distance_self_is_zero() {
    let y = table(&[&[1.0, 2.0, 3.0], &[4.0, 5.0, 6.0]]);
    let cache = UnitDistanceCache::build(&y, &zeros(2, 3));
    for i in 0..3 {
        assert!((on_demand(&cache, i, i, None)).abs() < 1e-14);
        assert!((on_demand(&cache, i, i, Some(0))).abs() < 1e-14);
    }
}

#[test]
fn a_unit_is_control_where_untreated_and_observed() {
    let y = table(&[&[1.0, f64::NAN], &[2.0, 3.0]]);
    let d = table(&[&[0.0, 0.0], &[1.0, 0.0]]);
    let cache = UnitDistanceCache::build(&y, &d);
    assert!(cache.unit_is_control_at(0, 0));
    assert!(!cache.unit_is_control_at(0, 1));
    assert!(!cache.unit_is_control_at(1, 0));
    assert!(cache.unit_is_control_at(1, 1));
}

#[test]
fn partly_treated_cells_are_not_compared() {
    let y = table(&[&[1.0, 2.0], &[1.0, 4.0]]);
    let d = table(&[&[0.5, 0.0], &[-0.0, 0.0]]);
    assert_eq!(compute_unit_distance_for_obs(&y, &d, 0, 1, 9), Separation::Periods(vec![1]));
}

#[test]
fn non_finite_values_are_replaced_by_zero() {
    assert_eq!(sanitize(f64::NAN.to_bits()), 0);
    assert_eq!(sanitize(f64::NEG_INFINITY.to_bits()), 0);
    assert_eq!(sanitize((-2.5_f64).to_bits()), (-2.5_f64).to_bits());
    let y = table(&[&[1.0, f64::INFINITY], &[f64::NAN, -3.0]]);
    assert_eq!(sanitize_table(&y).data, table(&[&[1.0, 0.0], &[0.0, -3.0]]).data);
}

#[test]
fn upper_triangle_is_mirrored() {
    let m = mirror(3, &vec![vec![1, 2], vec![3], vec![]]);
    assert_eq!(m.data, vec![0, 1, 2, 1, 0, 3, 2, 3, 0]);
}

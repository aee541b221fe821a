use trop::bits;
use trop::matrix::{true_cells, Matrix};
use trop::panel::{
    first_treated_period, is_ever_treated, is_never_treated, is_treated, is_untreated,
    observed_treated_cells, treated_cells,
};

const SAMPLES: [f64; 14] = [
    0.0,
    -0.0,
    1.0,
    -1.0,
    0.5,
    5e-324,
    -5e-324,
    1.7976931348623157e308,
    f64::INFINITY,
    f64::NEG_INFINITY,
    f64::NAN,
    2.5,
    1e10,
    -3.25,
];

#[test]
fn constants_are_what_they_say() {
    assert_eq!(bits::ZERO, 0.0_f64.to_bits());
    assert_eq!(bits::ONE, 1.0_f64.to_bits());
    assert_eq!(bits::HALF, 0.5_f64.to_bits());
    assert_eq!(bits::INFINITY, f64::INFINITY.to_bits());
    assert!(f64::from_bits(bits::NAN).is_nan());
}

#[test]
fn predicates_agree_with_the_numbers() {
    for v in SAMPLES {
        let b = v.to_bits();
        assert_eq!(bits::is_nan(b), v.is_nan());
        assert_eq!(bits::is_infinite(b), v.is_infinite());
        assert_eq!(bits::is_finite(b), v.is_finite());
        assert_eq!(bits::is_zero(b), v == 0.0);
        assert_eq!(bits::is_positive_finite(b), v.is_finite() && v > 0.0);
        assert_eq!(bits::abs(b), v.abs().to_bits());
    }
}

#[test]
fn comparisons_agree_with_the_numbers() {
    for a in SAMPLES {
        for b in SAMPLES {
            let (x, y) = (a.to_bits(), b.to_bits());
            assert_eq!(bits::less_than(x, y), a < b);
            assert_eq!(bits::less_or_equal(x, y), a <= b);
            assert_eq!(bits::equal(x, y), a == b);
            assert_eq!(bits::total_less(x, y), a.total_cmp(&b).is_lt());
        }
    }
}

#[test]
fn indices_agree_with_the_numbers() {
    let values = [
        0.0, -0.0, 0.25, 0.5, 0.75, 1.0, 1.5, 2.475, 96.525, 2.5, 3.5, -0.5, -7.0, 1e15, 1e300,
        4503599627370497.5, 5e-324, 0.49999999999999994,
    ];
    for v in values {
        let b = f64::to_bits(v);
        assert_eq!(bits::truncate(b), v as usize, "{}", v);
        assert_eq!(bits::round(b), v.round() as usize, "{}", v);
        assert_eq!(bits::ceiling(b), v.ceil() as usize, "{}", v);
    }
    assert_eq!(bits::truncate(f64::NAN.to_bits()), 0);
    assert_eq!(bits::truncate(f64::INFINITY.to_bits()), usize::MAX);
    assert_eq!(bits::round(f64::NEG_INFINITY.to_bits()), 0);
}

#[test]
fn matrices_are_stored_by_row() {
    let mut m = Matrix::from_rows(2, 3, vec![1, 2, 3, 4, 5, 6]).unwrap();
    assert_eq!((m.get(0, 2), m.get(1, 0)), (3, 4));
    m.set(1, 0, 9);
    assert_eq!(m.data, vec![1, 2, 3, 9, 5, 6]);
    assert!(Matrix::from_rows(2, 3, vec![1, 2, 3]).is_none());
    assert!(Matrix::from_rows(usize::MAX, 2, vec![1, 2]).is_none());
}

#[test]
fn columns_come_back() {
    let by_column = vec![1, 4, 2, 5, 3, 6];
    let m = Matrix::from_column_major(2, 3, &by_column).unwrap();
    assert_eq!(m.data, vec![1, 2, 3, 4, 5, 6]);
    assert_eq!(m.to_column_major(), by_column);
    assert!(Matrix::from_column_major(2, 2, &by_column).is_none());
}

#[test]
fn matrices_are_built_from_cells() {
    let m = Matrix::build(2, 2, |t: usize, i: usize| 10 * t + i);
    assert_eq!(m.data, vec![0, 1, 10, 11]);
}

#[test]
fn set_cells_are_listed_by_row() {
    let mask = Matrix::from_rows(2, 2, vec![false, true, true, true]).unwrap();
    assert_eq!(true_cells(&mask), vec![(0, 1), (1, 0), (1, 1)]);
}

fn table(rows: usize, cols: usize, values: &[f64]) -> Matrix<u64> {
    Matrix::from_rows(rows, cols, values.iter().map(|v| v.to_bits()).collect()).unwrap()
}

#[test]
fn treatment_status_of_cells_and_units() {
    let d = table(3, 3, &[0.0, 0.5, -0.0, 0.0, 0.0, 1.0, 0.0, 0.0, 1.0]);
    assert!(is_treated(&d, 1, 2) && !is_treated(&d, 0, 1));
    assert!(is_untreated(&d, 0, 2) && !is_untreated(&d, 0, 1));
    assert!(is_ever_treated(&d, 2) && !is_ever_treated(&d, 1));
    assert!(is_never_treated(&d, 0) && !is_never_treated(&d, 1) && !is_never_treated(&d, 2));
    assert_eq!(treated_cells(&d), vec![(1, 2), (2, 2)]);
    assert_eq!(first_treated_period(&d), 1);
    let y = table(3, 3, &[1.0, 1.0, 1.0, 1.0, 1.0, f64::NAN, 1.0, 1.0, 2.0]);
    assert_eq!(observed_treated_cells(&y, &d), vec![(2, 2)]);
    assert_eq!(first_treated_period(&table(2, 1, &[0.0, 0.0])), 2);
}

use kabsch_umeyama::array2::Array2;
use kabsch_umeyama::LengthMismatch;

#[test]
fn from_flat_builds_row_major() {
    let a = Array2::from_flat(vec![1.0_f64, 2.0, 3.0, 4.0, 5.0, 6.0], 2, 3).unwrap();
    assert_eq!(a.nrows(), 2);
    assert_eq!(a.ncols(), 3);
    assert_eq!(a.get(0, 0), 1.0);
    assert_eq!(a.get(0, 1), 2.0);
    assert_eq!(a.get(0, 2), 3.0);
    assert_eq!(a.get(1, 0), 4.0);
    assert_eq!(a.get(1, 1), 5.0);
    assert_eq!(a.get(1, 2), 6.0);
}

#[test]
fn from_flat_rejects_short_data() {
    let r = Array2::from_flat(vec![1.0_f64, 2.0, 3.0, 4.0, 5.0], 2, 3);
    assert!(matches!(r, Err(LengthMismatch)));
}

#[test]
fn from_flat_rejects_long_data() {
    let r = Array2::from_flat(vec![0.0_f64; 7], 2, 3);
    assert!(matches!(r, Err(LengthMismatch)));
}

#[test]
fn from_flat_rejects_empty_data_for_nonempty_shape() {
    let r = Array2::<f64>::from_flat(vec![], 1, 1);
    assert!(matches!(r, Err(LengthMismatch)));
}

#[test]
fn from_flat_accepts_empty_shape() {
    let a = Array2::<f64>::from_flat(vec![], 0, 5).unwrap();
    assert_eq!(a.nrows(), 0);
    assert_eq!(a.ncols(), 5);
}

#[test]
fn from_flat_rejects_data_for_empty_shape() {
    let r = Array2::from_flat(vec![1.0_f64, 2.0], 0, 5);
    assert!(matches!(r, Err(LengthMismatch)));
}

#[test]
fn new_builds_from_nested_rows() {
    let a = Array2::new(vec![vec![1.0_f64, 2.0, 3.0], vec![4.0, 5.0, 6.0]]).unwrap();
    assert_eq!(a.nrows(), 2);
    assert_eq!(a.ncols(), 3);
    assert_eq!(a.get(1, 0), 4.0);
    assert_eq!(a.get(1, 2), 6.0);
}

#[test]
fn new_rejects_ragged_rows() {
    let r = Array2::new(vec![vec![1.0_f64, 2.0], vec![3.0]]);
    assert!(matches!(r, Err(LengthMismatch)));
}

#[test]
fn same_shape_compares_both_counts() {
    let a = Array2::from_flat(vec![0.0_f64; 6], 2, 3).unwrap();
    let b = Array2::from_flat(vec![1.0_f64; 6], 2, 3).unwrap();
    let c = Array2::from_flat(vec![1.0_f64; 6], 3, 2).unwrap();
    assert!(a.same_shape(&b));
    assert!(!a.same_shape(&c));
}

#[test]
fn new_accepts_no_rows() {
    let a = Array2::<f64>::new(vec![]).unwrap();
    assert_eq!(a.nrows(), 0);
    assert_eq!(a.ncols(), 0);
}

use sparse_modeling::errors::SolverError;
use sparse_modeling::math_func::columns_to_2darray;
use sparse_modeling::math_func::is_underestimated_sys;
use sparse_modeling::math_func::scatter_with_support;
use sparse_modeling::math_func::support;
use sparse_modeling::math_func::support_distance;

/// Flags for the support of a float vector under the given tolerance:
/// the comparison the callers run before handing the vector over.
fn above_tolerance(xs: &[f64], err_range: f64) -> Vec<bool> {
    xs.iter().map(|v| v.abs() > err_range * 0.5).collect()
}

#[test]
fn support_of_example_vector() {
    let flags = above_tolerance(&[1.0, 2.0, 0.0, 5.0, 0.0], 1e-10);
    let supp = support(&flags);
    assert_eq!(supp, vec![0, 1, 3]);
}

#[test]
fn support_of_zero_vector_is_empty() {
    let flags = above_tolerance(&[0.0, 0.0, 0.0], 1e-10);
    let supp = support(&flags);
    assert!(supp.is_empty());
}

#[test]
fn support_distance_of_example_vectors() {
    let flags1 = above_tolerance(&[1.0, 2.0, 0.0, 5.0, 0.0], 1e-10);
    let flags2 = above_tolerance(&[0.0, 3.0, 0.0, 4.0, 2.0], 1e-10);
    let (intersection, larger) = support_distance(&flags1, &flags2).unwrap();
    assert_eq!(intersection, 2);
    assert_eq!(larger, 3);
    let distance = 1.0 - intersection as f64 / larger as f64;
    assert!((distance - 0.33333333333333).abs() < 1e-8);
}

#[test]
fn support_of_zero_length_vector_is_empty() {
    let flags: Vec<bool> = vec![];
    assert!(support(&flags).is_empty());
}

#[test]
fn support_distance_of_zero_length_vectors() {
    let flags1: Vec<bool> = vec![];
    let flags2: Vec<bool> = vec![];
    assert_eq!(support_distance(&flags1, &flags2).unwrap(), (0, 0));
}

#[test]
fn support_distance_of_empty_supports() {
    let flags1 = vec![false, false];
    let flags2 = vec![false, false];
    let (intersection, larger) = support_distance(&flags1, &flags2).unwrap();
    assert_eq!(intersection, 0);
    assert_eq!(larger, 0);
}

#[test]
fn support_distance_rejects_length_mismatch() {
    let flags1 = vec![true, false];
    let flags2 = vec![true, false, true];
    let err = support_distance(&flags1, &flags2).unwrap_err();
    assert_eq!(err, SolverError::SizeMismatch { left_len: 2, right_len: 3 });
}

#[test]
fn underdetermined_system_is_accepted() {
    assert!(is_underestimated_sys(3, 5, 3).is_ok());
    assert!(is_underestimated_sys(3, 3, 3).is_ok());
}

#[test]
fn observation_length_mismatch_is_rejected() {
    let err = is_underestimated_sys(3, 5, 4).unwrap_err();
    assert_eq!(err, SolverError::NotUnderdetermined { rows: 3, cols: 5, y_len: 4 });
}

#[test]
fn overdetermined_system_is_rejected() {
    let err = is_underestimated_sys(5, 3, 5).unwrap_err();
    assert_eq!(err, SolverError::NotUnderdetermined { rows: 5, cols: 3, y_len: 5 });
}

#[test]
fn columns_assemble_into_matrix() {
    let columns = vec![vec![0.0, 1.0], vec![2.0, 3.0], vec![4.0, 5.0]];
    let mat = columns_to_2darray(2, &columns);
    assert_eq!(mat, vec![vec![0.0, 2.0, 4.0], vec![1.0, 3.0, 5.0]]);
}

#[test]
fn scatter_places_sub_solution_on_support() {
    let sub = vec![7.5, -2.5];
    let supp = vec![3, 1];
    let x = scatter_with_support(&sub, &supp, 5, 0.0);
    assert_eq!(x, vec![0.0, -2.5, 0.0, 7.5, 0.0]);
}

#[test]
fn scatter_of_empty_support_is_all_zero() {
    let sub: Vec<f64> = vec![];
    let supp: Vec<usize> = vec![];
    let x = scatter_with_support(&sub, &supp, 4, 0.0);
    assert_eq!(x, vec![0.0, 0.0, 0.0, 0.0]);
}

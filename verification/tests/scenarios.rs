use matrix_core::{Matrix, MatrixError};

/// One fixed-point unit per 1/100000: convert a decimal value to units.
fn u(x: f64) -> i64 {
    (x * 100000.0).round() as i64
}

fn g(rows: &[&[f64]]) -> Vec<Vec<i64>> {
    rows.iter().map(|r| r.iter().map(|&x| u(x)).collect()).collect()
}

#[test]
fn add_then_sub_cancels() {
    let a = Matrix::new_with_data(g(&[&[7.2, -13.8, 5.1], &[9.3, 2.7, -6.4]])).unwrap();
    let b = Matrix::new_with_data(g(&[&[1.5, 8.9, -3.2], &[6.7, -11.3, 4.8]])).unwrap();
    let sum = a.add(&b).unwrap();
    assert_eq!(a, sum.sub(&b).unwrap());
}

#[test]
fn add_commutes() {
    let a = Matrix::new_with_data(g(&[&[7.2, -13.8, 5.1], &[9.3, 2.7, -6.4]])).unwrap();
    let b = Matrix::new_with_data(g(&[&[1.5, 8.9, -3.2], &[6.7, -11.3, 4.8]])).unwrap();
    assert_eq!(a.add(&b).unwrap(), b.add(&a).unwrap());
}

#[test]
fn transpose_twice_is_identity() {
    let a = Matrix::new_with_data(g(&[&[5.6, 9.8], &[2.9, 7.4], &[11.2, 3.1]])).unwrap();
    assert_eq!(a, a.transpose().transpose());
}

#[test]
fn trace_of_transpose_equals_trace() {
    let a =
        Matrix::new_with_data(g(&[&[2.1, 9.7, 3.5], &[8.4, 1.6, 7.2], &[5.9, 12.3, 0.8]]))
            .unwrap();
    assert_eq!(a.trace().unwrap(), a.transpose().trace().unwrap());
}

#[test]
fn product_with_inverse_is_identity_within_grid() {
    // The product lands within a few grid steps of the identity: the
    // inverse's elements each carry up to half a grid step of rounding.
    let tolerance: i64 = 10;
    for a in [
        Matrix::new_with_data(g(&[&[4.5, 2.8], &[1.3, 6.7]])).unwrap(),
        Matrix::new_with_data(g(&[&[2.1, 9.7, 3.5], &[8.4, 1.6, 7.2], &[5.9, 12.3, 0.8]]))
            .unwrap(),
    ] {
        let n = a.rows();
        let product = a.mul(&a.inverse().unwrap()).unwrap();
        for i in 0..n {
            for j in 0..n {
                let expected = if i == j { u(1.0) } else { 0 };
                let got = product.get_element(i, j).unwrap();
                assert!((got - expected).abs() <= tolerance);
            }
        }
    }
}

#[test]
fn determinant_times_inverse_determinant_near_one() {
    for a in [
        Matrix::new_with_data(g(&[&[4.5, 2.8], &[1.3, 6.7]])).unwrap(),
        Matrix::new_with_data(g(&[&[2.1, 9.7, 3.5], &[8.4, 1.6, 7.2], &[5.9, 12.3, 0.8]]))
            .unwrap(),
    ] {
        let d = a.determinant().unwrap() as i128;
        let d_inv = a.inverse().unwrap().determinant().unwrap() as i128;
        // d * d_inv carries two unit factors: compare against 1.0 * 10^10.
        let one: i128 = 10_000_000_000;
        let product = d * d_inv;
        assert!((product - one).abs() <= one / 500);
    }
}

#[test]
fn singular_iff_zero_determinant() {
    let singular = Matrix::new_with_data(g(&[&[1.0, 2.0], &[2.0, 4.0]])).unwrap();
    assert_eq!(0, singular.determinant().unwrap());
    assert!(singular.is_singular());

    let regular = Matrix::new_with_data(g(&[&[4.5, 2.8], &[1.3, 6.7]])).unwrap();
    assert_ne!(0, regular.determinant().unwrap());
    assert!(!regular.is_singular());

    // Non-square matrices are treated as not singular.
    let wide = Matrix::new_with_data(g(&[&[1.0, 2.0, 3.0], &[4.0, 5.0, 6.0]])).unwrap();
    assert!(!wide.is_singular());
}

#[test]
fn shape_mismatch_errors() {
    let two_by_three = Matrix::new_zero_matrix(2, 3).unwrap();
    let four_by_two = Matrix::new_zero_matrix(4, 2).unwrap();
    assert_eq!(
        MatrixError::DimensionMismatch,
        two_by_three.add(&four_by_two).unwrap_err()
    );
    assert_eq!(
        MatrixError::DimensionMismatch,
        two_by_three.mul(&four_by_two).unwrap_err()
    );
}

#[test]
fn empty_matrix_edge_cases() {
    // A zero-row grid is an allowed constructor artifact: a 0-by-0 matrix.
    let empty = Matrix::new_with_data(vec![]).unwrap();
    assert_eq!(0, empty.rows());
    assert_eq!(0, empty.columns());
    assert!(empty.is_square());
    assert!(empty.is_zero());
    assert!(!empty.is_scalar());
    // The determinant of the empty product is 1.0.
    assert_eq!(u(1.0), empty.determinant().unwrap());
}

#[test]
fn half_units_round_away_from_zero() {
    let tiny = Matrix::new_with_data(vec![vec![1, -1]]).unwrap();
    let scaled = tiny.scale(u(0.5));
    assert_eq!(vec![vec![1, -1]], scaled.get_data());

    let evened = Matrix::new_with_data(vec![vec![3, -3]]).unwrap();
    let scaled = evened.scale(u(0.5));
    assert_eq!(vec![vec![2, -2]], scaled.get_data());
}

#[test]
fn negation_is_scaling_by_minus_one() {
    let a = Matrix::new_with_data(g(&[&[7.2, -13.8, 5.1], &[9.3, 2.7, -6.4]])).unwrap();
    assert_eq!(a.neg(), a.scale(u(-1.0)));
    assert_eq!(a, a.neg().neg());
}

#[test]
fn trace_exact_sum() {
    let a = Matrix::new_with_data(g(&[&[1.25, 9.0], &[4.0, -0.75]])).unwrap();
    assert_eq!(u(0.5), a.trace().unwrap());
}

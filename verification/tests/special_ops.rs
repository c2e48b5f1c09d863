use matrix_core::Matrix;
use matrix_core::MatrixError;

/// One fixed-point unit per 1/100000: convert a decimal value to units.
fn u(x: f64) -> i64 {
    (x * 100000.0).round() as i64
}

fn g(rows: &[&[f64]]) -> Vec<Vec<i64>> {
    rows.iter().map(|r| r.iter().map(|&x| u(x)).collect()).collect()
}

fn generic_examples() -> [Matrix; 3] {
    [
        Matrix::new_with_data(g(&[&[7.2, 13.8, 5.1], &[9.3, 2.7, 6.4]])).unwrap(),
        Matrix::new_with_data(g(&[&[1.5, 8.9, 3.2], &[6.7, 11.3, 4.8]])).unwrap(),
        Matrix::new_with_data(g(&[&[5.6, 9.8], &[2.9, 7.4], &[11.2, 3.1], &[6.3, 8.7]])).unwrap(),
    ]
}

fn square_examples() -> [Matrix; 4] {
    [
        Matrix::new_with_data(g(&[&[2.5]])).unwrap(),
        Matrix::new_with_data(g(&[&[4.5, 2.8], &[1.3, 6.7]])).unwrap(),
        Matrix::new_with_data(g(&[&[2.1, 9.7, 3.5], &[8.4, 1.6, 7.2], &[5.9, 12.3, 0.8]]))
            .unwrap(),
        Matrix::new_with_data(g(&[
            &[0.0, 7.1, 0.5, 9.3, 2.8],
            &[6.4, 1.9, 8.7, 4.2, 5.6],
            &[0.3, 9.8, 2.1, 7.5, 3.9],
            &[5.7, 3.6, 8.2, 1.4, 6.0],
            &[9.1, 4.5, 2.6, 7.8, 0.7],
        ]))
        .unwrap(),
    ]
}

#[test]
fn transpose() {
    assert_eq!(
        Matrix::new_with_data(g(&[&[7.2, 9.3], &[13.8, 2.7], &[5.1, 6.4]])).unwrap(),
        generic_examples()[0].transpose()
    )
}

#[test]
fn trace() {
    assert_eq!(
        MatrixError::NonSquareMatrix,
        generic_examples()[0].trace().unwrap_err()
    );

    let [matrix_1x1, matrix_2x2, matrix_3x3, matrix_5x5] = square_examples();
    assert_eq!(u(2.5), matrix_1x1.trace().unwrap());
    assert_eq!(u(11.2), matrix_2x2.trace().unwrap());
    assert_eq!(u(4.5), matrix_3x3.trace().unwrap());
    assert_eq!(u(6.1), matrix_5x5.trace().unwrap());
}

#[test]
fn determinant() {
    assert_eq!(
        MatrixError::NonSquareMatrix,
        generic_examples()[0].determinant().unwrap_err()
    );

    let [matrix_1x1, matrix_2x2, matrix_3x3, matrix_5x5] = square_examples();

    assert_eq!(u(2.5), matrix_1x1.determinant().unwrap());
    assert_eq!(u(26.51), matrix_2x2.determinant().unwrap());
    assert_eq!(u(492.164), matrix_3x3.determinant().unwrap());
    assert_eq!(u(-2204.89804), matrix_5x5.determinant().unwrap());
    assert_eq!(
        0,
        Matrix::new_zero_matrix(3, 3).unwrap().determinant().unwrap()
    );
}

#[test]
fn adjoint() {
    assert_eq!(
        MatrixError::NonSquareMatrix,
        generic_examples()[0].adjoint().unwrap_err()
    );

    let [matrix_1x1, matrix_2x2, matrix_3x3, _] = square_examples();

    assert_eq!(
        Matrix::new_with_data(g(&[&[1.0]])).unwrap(),
        matrix_1x1.adjoint().unwrap()
    );

    assert_eq!(
        Matrix::new_with_data(g(&[&[6.7, -2.8], &[-1.3, 4.5]])).unwrap(),
        matrix_2x2.adjoint().unwrap()
    );

    assert_eq!(
        Matrix::new_with_data(g(&[
            &[-87.28, 35.29, 64.24],
            &[35.76, -18.97, 14.28],
            &[93.88, 31.4, -78.12],
        ]))
        .unwrap(),
        matrix_3x3.adjoint().unwrap()
    );
}

#[test]
fn inverse() {
    assert_eq!(
        MatrixError::NonSquareMatrix,
        generic_examples()[0].inverse().unwrap_err()
    );

    assert_eq!(
        MatrixError::SingularMatrix,
        Matrix::new_with_data(g(&[&[1.0, 2.0], &[2.0, 4.0]]))
            .unwrap()
            .inverse()
            .unwrap_err()
    );

    let [matrix_1x1, matrix_2x2, matrix_3x3, _] = square_examples();

    assert_eq!(
        Matrix::new_with_data(g(&[&[0.4]])).unwrap(),
        matrix_1x1.inverse().unwrap()
    );

    assert_eq!(
        Matrix::new_with_data(g(&[&[0.25273, -0.10562], &[-0.04904, 0.16975]])).unwrap(),
        matrix_2x2.inverse().unwrap()
    );

    assert_eq!(
        Matrix::new_with_data(g(&[
            &[-0.17734, 0.07170, 0.13053],
            &[0.07266, -0.03854, 0.02901],
            &[0.19075, 0.06380, -0.15873]
        ]))
        .unwrap(),
        matrix_3x3.inverse().unwrap()
    );
}

use matrix_core::Matrix;
use matrix_core::MatrixError;

/// One fixed-point unit per 1/100000: convert a decimal value to units.
fn u(x: f64) -> i64 {
    (x * 100000.0).round() as i64
}

fn g(rows: &[&[f64]]) -> Vec<Vec<i64>> {
    rows.iter().map(|r| r.iter().map(|&x| u(x)).collect()).collect()
}

fn generic_examples() -> [Matrix; 3] {
    [
        Matrix::new_with_data(g(&[&[7.2, 13.8, 5.1], &[9.3, 2.7, 6.4]])).unwrap(),
        Matrix::new_with_data(g(&[&[1.5, 8.9, 3.2], &[6.7, 11.3, 4.8]])).unwrap(),
        Matrix::new_with_data(g(&[&[5.6, 9.8], &[2.9, 7.4], &[11.2, 3.1], &[6.3, 8.7]])).unwrap(),
    ]
}

#[test]
fn add() {
    let [matrix_2x3, another_matrix_2x3, matrix_4x2] = generic_examples();

    assert_eq!(
        Matrix::new_with_data(g(&[&[8.7, 22.7, 8.3], &[16.0, 14.0, 11.2]])).unwrap(),
        matrix_2x3.add(&another_matrix_2x3).unwrap()
    );
    assert_eq!(
        MatrixError::DimensionMismatch,
        matrix_2x3.add(&matrix_4x2).unwrap_err()
    );
}

#[test]
fn subtract() {
    let [matrix_2x3, another_matrix_2x3, matrix_4x2] = generic_examples();

    assert_eq!(
        Matrix::new_with_data(g(&[&[5.7, 4.9, 1.9], &[2.6, -8.6, 1.6]])).unwrap(),
        matrix_2x3.sub(&another_matrix_2x3).unwrap()
    );
    assert_eq!(
        MatrixError::DimensionMismatch,
        matrix_2x3.sub(&matrix_4x2).unwrap_err()
    );
}

#[test]
fn scale() {
    let matrix_2x3 = &generic_examples()[0];

    assert_eq!(
        Matrix::new_with_data(g(&[&[14.4, 27.6, 10.2], &[18.6, 5.4, 12.8]])).unwrap(),
        matrix_2x3.scale(u(2.0))
    );

    assert_eq!(
        Matrix::new_with_data(g(&[&[3.6, 6.9, 2.55], &[4.65, 1.35, 3.2]])).unwrap(),
        matrix_2x3.scale(u(0.5))
    );
}

#[test]
fn multiplication() {
    let [matrix_2x3, _, matrix_4x2] = generic_examples();

    assert_eq!(
        Matrix::new_with_data(g(&[
            &[131.46, 103.74, 91.28],
            &[89.7, 60.0, 62.15],
            &[109.47, 162.93, 76.96],
            &[126.27, 110.43, 87.81],
        ]))
        .unwrap(),
        matrix_4x2.mul(&matrix_2x3).unwrap()
    );

    assert_eq!(
        MatrixError::DimensionMismatch,
        matrix_2x3.mul(&matrix_4x2).unwrap_err()
    );
}

#[test]
fn negative() {
    assert_eq!(
        Matrix::new_with_data(g(&[&[-7.2, -13.8, -5.1], &[-9.3, -2.7, -6.4]])).unwrap(),
        generic_examples()[0].neg()
    )
}

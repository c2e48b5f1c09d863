use matrix_core::{Matrix, MatrixError};

/// One fixed-point unit per 1/100000: convert a decimal value to units.
fn u(x: f64) -> i64 {
    (x * 100000.0).round() as i64
}

fn g(rows: &[&[f64]]) -> Vec<Vec<i64>> {
    rows.iter().map(|r| r.iter().map(|&x| u(x)).collect()).collect()
}

fn generic_examples() -> [Matrix; 3] {
    [
        Matrix::new_with_data(g(&[&[7.2, 13.8, 5.1], &[9.3, 2.7, 6.4]])).unwrap(),
        Matrix::new_with_data(g(&[&[1.5, 8.9, 3.2], &[6.7, 11.3, 4.8]])).unwrap(),
        Matrix::new_with_data(g(&[&[5.6, 9.8], &[2.9, 7.4], &[11.2, 3.1], &[6.3, 8.7]])).unwrap(),
    ]
}

#[test]
fn new_zero_matrix() {
    let matrix1 = Matrix::new_zero_matrix(2, 3).unwrap();
    assert_eq!(
        Matrix { rows: 2, columns: 3, data: vec![vec![0; 3]; 2] },
        matrix1
    );

    assert_eq!(
        MatrixError::ZeroDimension,
        Matrix::new_zero_matrix(0, 1).unwrap_err()
    );

    assert_eq!(
        MatrixError::ZeroDimension,
        Matrix::new_zero_matrix(1, 0).unwrap_err()
    );

    assert_eq!(
        MatrixError::ZeroDimension,
        Matrix::new_zero_matrix(0, 0).unwrap_err()
    );
}

#[test]
fn new_with_data() {
    assert_eq!(
        Matrix {
            rows: 2,
            columns: 3,
            data: g(&[&[4.5, 54.6, 0.0], &[2.4, 10.4, 1.8]])
        },
        Matrix::new_with_data(g(&[&[4.5, 54.6, 0.0], &[2.4, 10.4, 1.8]])).unwrap()
    );

    assert_eq!(
        MatrixError::InconsistentColumnSize,
        Matrix::new_with_data(g(&[&[4.5, 54.6, 0.0], &[2.4, 10.4]])).unwrap_err()
    );
}

#[test]
fn get_data() {
    let [example_matrix, _, _] = generic_examples();

    assert_eq!(g(&[&[7.2, 13.8, 5.1], &[9.3, 2.7, 6.4]]), example_matrix.get_data());

    assert_eq!(
        MatrixError::IndexOutOfBounds,
        example_matrix.get_row(2).unwrap_err()
    );
    assert_eq!(
        vec![u(9.3), u(2.7), u(6.4)],
        example_matrix.get_row(1).unwrap()
    );

    assert_eq!(
        MatrixError::IndexOutOfBounds,
        example_matrix.get_column(3).unwrap_err()
    );
    assert_eq!(vec![u(13.8), u(2.7)], example_matrix.get_column(1).unwrap());

    assert_eq!(
        MatrixError::IndexOutOfBounds,
        example_matrix.get_element(2, 1).unwrap_err()
    );
    assert_eq!(
        MatrixError::IndexOutOfBounds,
        example_matrix.get_element(1, 3).unwrap_err()
    );
    assert_eq!(u(2.7), example_matrix.get_element(1, 1).unwrap());
}

#[test]
fn set_data() {
    let [mut example_matrix, _, _] = generic_examples();

    assert_eq!(
        MatrixError::DimensionMismatch,
        example_matrix
            .set_data(g(&[&[1.0], &[2.3], &[5.1]]))
            .unwrap_err()
    );

    assert_eq!(
        MatrixError::InconsistentColumnSize,
        example_matrix
            .set_data(g(&[&[1.0, 4.3, 7.9], &[2.6, 11.9]]))
            .unwrap_err()
    );

    let data = g(&[&[2.6, 7.1, 0.0], &[3.5, 7.1, 9.0]]);
    example_matrix.set_data(data.clone()).unwrap();
    assert_eq!(Matrix::new_with_data(data).unwrap(), example_matrix);
}

#[test]
fn set_row() {
    let [mut matrix_2x3, _, _] = generic_examples();

    assert_eq!(
        MatrixError::IndexOutOfBounds,
        matrix_2x3
            .set_row(3, vec![u(1.0), u(2.3), u(5.6)])
            .unwrap_err()
    );

    assert_eq!(
        MatrixError::DimensionMismatch,
        matrix_2x3.set_row(1, vec![u(1.0), u(2.3)]).unwrap_err()
    );

    let data = vec![u(2.6), u(7.1), u(0.0)];
    matrix_2x3.set_row(1, data.clone()).unwrap();
    assert_eq!(data, matrix_2x3.data[1]);
}

#[test]
fn set_column() {
    let [mut matrix_2x3, _, _] = generic_examples();

    assert_eq!(
        MatrixError::IndexOutOfBounds,
        matrix_2x3
            .set_column(3, vec![u(1.0), u(2.3), u(5.6)])
            .unwrap_err()
    );

    assert_eq!(
        MatrixError::DimensionMismatch,
        matrix_2x3
            .set_column(1, vec![u(1.0), u(2.3), u(34.8), u(0.0)])
            .unwrap_err()
    );

    let data = vec![u(2.6), u(7.1)];
    matrix_2x3.set_column(1, data.clone()).unwrap();
    assert!(matrix_2x3
        .data
        .iter()
        .enumerate()
        .all(|(index, row)| row[1] == data[index]));
}

#[test]
fn set_element() {
    let [mut matrix_2x3, _, _] = generic_examples();

    assert_eq!(
        MatrixError::IndexOutOfBounds,
        matrix_2x3.set_element(3, 1, u(11.1)).unwrap_err()
    );

    assert_eq!(
        MatrixError::IndexOutOfBounds,
        matrix_2x3.set_element(1, 3, u(11.1)).unwrap_err()
    );

    matrix_2x3.set_element(1, 1, u(11.1)).unwrap();
    assert_eq!(u(11.1), matrix_2x3.data[1][1]);
}

#[test]
fn diagonal_matrix() {
    assert_eq!(
        MatrixError::ZeroDimension,
        Matrix::new_diagonal_matrix(&vec![]).unwrap_err()
    );

    assert_eq!(
        Matrix {
            rows: 4,
            columns: 4,
            data: g(&[
                &[5.5, 0.0, 0.0, 0.0],
                &[0.0, 7.8, 0.0, 0.0],
                &[0.0, 0.0, 3.2, 0.0],
                &[0.0, 0.0, 0.0, 11.0],
            ])
        },
        Matrix::new_diagonal_matrix(&vec![u(5.5), u(7.8), u(3.2), u(11.0)]).unwrap()
    )
}

#[test]
fn scalar_matrix() {
    assert_eq!(
        MatrixError::ZeroDimension,
        Matrix::new_scalar_matrix(u(6.5), 0).unwrap_err()
    );

    assert_eq!(
        Matrix {
            rows: 4,
            columns: 4,
            data: g(&[
                &[5.5, 0.0, 0.0, 0.0],
                &[0.0, 5.5, 0.0, 0.0],
                &[0.0, 0.0, 5.5, 0.0],
                &[0.0, 0.0, 0.0, 5.5],
            ])
        },
        Matrix::new_scalar_matrix(u(5.5), 4).unwrap()
    )
}

#[test]
fn nth_identity() {
    assert_eq!(
        MatrixError::ZeroDimension,
        Matrix::nth_identity(0).unwrap_err()
    );

    assert_eq!(
        Matrix {
            rows: 3,
            columns: 3,
            data: g(&[&[1.0, 0.0, 0.0], &[0.0, 1.0, 0.0], &[0.0, 0.0, 1.0]])
        },
        Matrix::nth_identity(3).unwrap()
    )
}

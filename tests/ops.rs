use land::ops::{dot, mat_mul, mat_vec_mul, transpose};
use land::{Matrix, ShapeError, Dimensions, Vector};

fn ops_matrix(rows: Vec<Vec<i32>>) -> Matrix<i32> {
    Matrix::new(rows).unwrap()
}

#[test]
fn dot_small_odd() {
    let a = Vector::from(vec![1, 3, 7]);
    let b = Vector::from(vec![1, -2, 2]);

    let result = dot(&a, &b).unwrap();
    assert_eq!(result, 9);
}

#[test]
fn ops_matrix_multiplication_small_rect() {
    let a = ops_matrix(vec![vec![1, 2, 3], vec![4, 5, 6]]);
    let b = ops_matrix(vec![vec![1, 2, 3], vec![4, 5, 6], vec![7, 8, 9]]);

    let result = mat_mul(&a, &b).unwrap();

    assert_eq!(result, ops_matrix(vec![vec![30, 36, 42], vec![66, 81, 96]]));
}

#[test]
fn ops_matrix_vector_product() {
    let a = ops_matrix(vec![vec![1, 2, 3], vec![4, 5, 6]]);
    let v = Vector::new(vec![1, 2, 3]);
    assert_eq!(mat_vec_mul(&a, &v).unwrap(), Vector::new(vec![14, 32]));
    assert!(mat_vec_mul(&a, &Vector::new(vec![1, 2])).is_err());
}

#[test]
fn ops_transpose_and_mismatches() {
    let a = ops_matrix(vec![vec![1, 2, 3], vec![4, 5, 6]]);
    assert_eq!(transpose(&a), ops_matrix(vec![vec![1, 4], vec![2, 5], vec![3, 6]]));
    assert_eq!(
        mat_mul(&a, &a),
        Err(ShapeError::DimensionMismatch {
            lhs: Dimensions { rows: 2, cols: 3 },
            rhs: Dimensions { rows: 2, cols: 3 }
        })
    );
    assert_eq!(
        dot(&Vector::new(vec![1, 2]), &Vector::new(vec![1, 2, 3])),
        Err(ShapeError::DimensionMismatch {
            lhs: Dimensions { rows: 2, cols: 1 },
            rhs: Dimensions { rows: 3, cols: 1 }
        })
    );
}

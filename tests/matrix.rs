use land::{Dimensions, Matrix, ShapeError, Vector};

fn matrix_of(rows: Vec<Vec<i32>>) -> Matrix<i32> {
    Matrix::new(rows).unwrap()
}

#[test]
fn create_filled_matrix() {
    assert_eq!(
        Matrix::<i32>::filled(2, (3, 4).into()),
        matrix_of(vec![vec![2, 2, 2, 2], vec![2, 2, 2, 2], vec![2, 2, 2, 2]])
    )
}

#[test]
fn create_zero_matrix() {
    assert_eq!(
        Matrix::<i32>::zeros((3, 4).into()),
        matrix_of(vec![vec![0, 0, 0, 0], vec![0, 0, 0, 0], vec![0, 0, 0, 0]])
    )
}

#[test]
fn create_one_matrix() {
    assert_eq!(
        Matrix::<i32>::ones((3, 4).into()),
        matrix_of(vec![vec![1, 1, 1, 1], vec![1, 1, 1, 1], vec![1, 1, 1, 1]])
    )
}

#[test]
fn create_diagonal_matrix() {
    assert_eq!(
        Matrix::<i32>::diagonal(3, 4),
        matrix_of(vec![vec![3, 0, 0, 0], vec![0, 3, 0, 0], vec![0, 0, 3, 0], vec![0, 0, 0, 3]])
    )
}

#[test]
fn create_identity_matrix() {
    assert_eq!(
        Matrix::<i32>::identity(4),
        matrix_of(vec![vec![1, 0, 0, 0], vec![0, 1, 0, 0], vec![0, 0, 1, 0], vec![0, 0, 0, 1]])
    )
}

#[test]
fn index_rect() {
    let a: Matrix<i32> = matrix_of(vec![vec![1, 2, 3], vec![4, 5, 6]]);

    assert_eq!(a.row(0).unwrap()[0], 1);
    assert_eq!(a.row(0).unwrap()[1], 2);
    assert_eq!(a.row(0).unwrap()[2], 3);
    assert_eq!(a.row(1).unwrap()[0], 4);
    assert_eq!(a.row(1).unwrap()[1], 5);
    assert_eq!(a.row(1).unwrap()[2], 6);
}

#[test]
fn transpose_square() {
    let a = matrix_of(vec![vec![1, 2, 3], vec![4, 5, 6], vec![7, 8, 9]]);

    let result = a.transpose();

    assert_eq!(result, matrix_of(vec![vec![1, 4, 7], vec![2, 5, 8], vec![3, 6, 9]]));
}

#[test]
fn transpose_rect() {
    let a = matrix_of(vec![vec![1, 2, 3], vec![4, 5, 6]]);

    let result = a.transpose();

    assert_eq!(result, matrix_of(vec![vec![1, 4], vec![2, 5], vec![3, 6]]));
}

#[test]
fn operations_matrix_multiplication_small_rect() {
    let a = matrix_of(vec![vec![1, 2, 3], vec![4, 5, 6]]);
    let b = matrix_of(vec![vec![1, 2, 3], vec![4, 5, 6], vec![7, 8, 9]]);

    let result = a.mul(&b).unwrap();

    assert_eq!(result, matrix_of(vec![vec![30, 36, 42], vec![66, 81, 96]]));
}

#[test]
fn matrix_multiplication_small_square() {
    let a = matrix_of(vec![vec![1, 2], vec![3, 4]]);
    let b = matrix_of(vec![vec![5, 6], vec![7, 8]]);

    let result = a.mul(&b).unwrap();

    assert_eq!(
        result,
        matrix_of(vec![
            vec![1 * 5 + 2 * 7, 1 * 6 + 2 * 8],
            vec![3 * 5 + 4 * 7, 3 * 6 + 4 * 8]
        ])
    );
}

#[test]
fn matrix_vector_multiplication() {
    let a = matrix_of(vec![vec![1, 2, 3], vec![4, 5, 6]]);
    let b = Vector::new(vec![1, 2, 3]);

    let result = a.mul_vector(&b).unwrap();

    assert_eq!(result, Vector::new(vec![1 * 1 + 2 * 2 + 3 * 3, 4 * 1 + 5 * 2 + 6 * 3]));
}

#[test]
fn new_rejects_ragged_rows() {
    let r = Matrix::new(vec![vec![1, 2, 3], vec![4, 5, 6], vec![7, 8]]);
    assert_eq!(
        r,
        Err(ShapeError::ShapeConstruction {
            dimensions: Dimensions { rows: 3, cols: 3 },
            found: 2
        })
    );
}

#[test]
fn new_from_no_rows_is_empty() {
    let m = Matrix::<i32>::new(vec![]).unwrap();
    assert_eq!(m.dim(), Dimensions { rows: 0, cols: 0 });
}

#[test]
fn from_row_major_matches_rows() {
    let elements = vec![1, 2, 3, 4, 5, 6];
    let dimensions = Dimensions { rows: 2, cols: 3 };
    let matrix = Matrix::from_row_major(dimensions, elements).unwrap();
    assert_eq!(matrix, matrix_of(vec![vec![1, 2, 3], vec![4, 5, 6]]));
}

#[test]
fn from_row_major_rejects_wrong_count() {
    let dimensions = Dimensions { rows: 2, cols: 3 };
    let r = Matrix::from_row_major(dimensions, vec![1, 2, 3, 4, 5]);
    assert_eq!(r, Err(ShapeError::ShapeConstruction { dimensions, found: 5 }));
    let huge = Dimensions { rows: usize::MAX, cols: 2 };
    let r = Matrix::from_row_major(huge, vec![1, 2]);
    assert_eq!(r, Err(ShapeError::ShapeConstruction { dimensions: huge, found: 2 }));
}

#[test]
fn element_access_and_bounds() {
    let mut a = matrix_of(vec![vec![1, 2, 3], vec![4, 5, 6]]);
    assert_eq!(a.get(1, 2), Ok(6));
    assert_eq!(a.get(2, 0), Err(ShapeError::IndexOutOfRange { index: 2, bound: 2 }));
    assert_eq!(a.get(0, 3), Err(ShapeError::IndexOutOfRange { index: 3, bound: 3 }));
    assert_eq!(a.set(0, 1, 20), Ok(()));
    assert_eq!(a.get(0, 1), Ok(20));
    assert_eq!(a.set(5, 0, 1), Err(ShapeError::IndexOutOfRange { index: 5, bound: 2 }));
    assert_eq!(a.row(2), Err(ShapeError::IndexOutOfRange { index: 2, bound: 2 }));
    assert_eq!(a, matrix_of(vec![vec![1, 20, 3], vec![4, 5, 6]]));
}

#[test]
fn row_mut_writes_one_row() {
    let mut a = matrix_of(vec![vec![1, 2, 3], vec![4, 5, 6]]);
    {
        let row = a.row_mut(1).unwrap();
        row[0] = 40;
        row[2] = 60;
    }
    assert_eq!(a, matrix_of(vec![vec![1, 2, 3], vec![40, 5, 60]]));
    assert!(a.row_mut(2).is_err());
}

#[test]
fn multiplication_rejects_mismatched_shapes() {
    let a = matrix_of(vec![vec![1, 2, 3], vec![4, 5, 6]]);
    let b = matrix_of(vec![vec![1, 2], vec![3, 4]]);
    assert_eq!(
        a.mul(&b),
        Err(ShapeError::DimensionMismatch {
            lhs: Dimensions { rows: 2, cols: 3 },
            rhs: Dimensions { rows: 2, cols: 2 }
        })
    );
    let v = Vector::new(vec![1, 2]);
    assert_eq!(
        a.mul_vector(&v),
        Err(ShapeError::DimensionMismatch {
            lhs: Dimensions { rows: 2, cols: 3 },
            rhs: Dimensions { rows: 2, cols: 1 }
        })
    );
}

#[test]
fn elementwise_matrix_sum_and_difference() {
    let a = matrix_of(vec![vec![1, 2, 3], vec![4, 5, 6]]);
    let b = matrix_of(vec![vec![6, 5, 4], vec![3, 2, 1]]);
    assert_eq!(a.add(&b).unwrap(), matrix_of(vec![vec![7, 7, 7], vec![7, 7, 7]]));
    assert_eq!(a.sub(&b).unwrap(), matrix_of(vec![vec![-5, -3, -1], vec![1, 3, 5]]));
    let mut c = a.clone();
    assert_eq!(c.add_assign(&b), Ok(()));
    assert_eq!(c.sub_assign(&b), Ok(()));
    assert_eq!(c, a);
}

#[test]
fn elementwise_matrix_ops_reject_other_shapes() {
    let a = matrix_of(vec![vec![1, 2, 3], vec![4, 5, 6]]);
    let b = a.transpose();
    let mismatch = ShapeError::DimensionMismatch {
        lhs: Dimensions { rows: 2, cols: 3 },
        rhs: Dimensions { rows: 3, cols: 2 },
    };
    assert_eq!(a.add(&b), Err(mismatch));
    assert_eq!(a.sub(&b), Err(mismatch));
    let mut c = a.clone();
    assert_eq!(c.add_assign(&b), Err(mismatch));
    assert_eq!(c, a);
}

#[test]
fn matrix_scalar_broadcast() {
    let a = matrix_of(vec![vec![2, 4], vec![6, 8]]);
    assert_eq!(a.add_scalar(1), matrix_of(vec![vec![3, 5], vec![7, 9]]));
    assert_eq!(a.sub_scalar(1), matrix_of(vec![vec![1, 3], vec![5, 7]]));
    assert_eq!(a.mul_scalar(3), matrix_of(vec![vec![6, 12], vec![18, 24]]));
    assert_eq!(a.div_scalar(2), matrix_of(vec![vec![1, 2], vec![3, 4]]));
}

#[test]
fn matrix_equality_needs_equal_shapes() {
    let a = Matrix::from_row_major(Dimensions { rows: 2, cols: 3 }, vec![1, 2, 3, 4, 5, 6]).unwrap();
    let b = Matrix::from_row_major(Dimensions { rows: 3, cols: 2 }, vec![1, 2, 3, 4, 5, 6]).unwrap();
    assert_ne!(a, b);
    assert_eq!(a.size(), Dimensions { rows: 2, cols: 3 });
    assert_eq!(a.rows_len(), 2);
    assert_eq!(a.cols_len(), 3);
}

#[test]
fn dimensions_shape_model() {
    let d = Dimensions::square(3);
    assert_eq!(d, Dimensions { rows: 3, cols: 3 });
    let r = Dimensions { rows: 2, cols: 5 };
    assert_eq!(r.elements(), 10);
    assert_eq!(r.transpose(), Dimensions { rows: 5, cols: 2 });
    assert_eq!(r.row_major(1, 3), 8);
    assert_eq!(r.row_major(0, 0), 0);
    let from_pair: Dimensions = (2, 5).into();
    let from_array: Dimensions = [2, 5].into();
    assert_eq!(from_pair, r);
    assert_eq!(from_array, r);
}

#[test]
fn empty_and_degenerate_shapes() {
    let z = Matrix::<i32>::zeros((0, 4).into());
    assert_eq!(z.transpose().dim(), Dimensions { rows: 4, cols: 0 });
    let a = Matrix::<i32>::ones((2, 0).into());
    let b = Matrix::<i32>::ones((0, 3).into());
    assert_eq!(a.mul(&b).unwrap(), Matrix::zeros((2, 3).into()));
    assert_eq!(a.row(1).unwrap().len(), 0);
    assert_eq!(Matrix::<i32>::identity(0).dim(), Dimensions { rows: 0, cols: 0 });
}

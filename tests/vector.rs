use land::{Dimensions, Matrix, ShapeError, Vector};

fn vector_of(elements: Vec<i32>) -> Vector<i32> {
    Vector::new(elements)
}

#[test]
fn create_filled_vector() {
    assert_eq!(Vector::<i32>::filled(2, 3), vector_of(vec![2, 2, 2]))
}

#[test]
fn create_zero_vector() {
    assert_eq!(Vector::<i32>::zeros(3), vector_of(vec![0, 0, 0]))
}

#[test]
fn create_one_vector() {
    assert_eq!(Vector::<i32>::ones(3), vector_of(vec![1, 1, 1]))
}

#[test]
fn map_add_one() {
    let a = vector_of(vec![1, 2, 3]);

    let result = a.map(|e| e + 1);

    assert_eq!(result, vector_of(vec![2, 3, 4]))
}

#[test]
fn dot_product_small() {
    let a = vector_of(vec![1, 2, 3]);
    let b = vector_of(vec![1, 2, 2]);

    let result = a.dot(&b).unwrap();

    assert_eq!(result, 1 * 1 + 2 * 2 + 3 * 2);
}

#[test]
fn mul_transpose() {
    let a = vector_of(vec![1, 2, 3]);
    let b = vector_of(vec![4, 5]);

    let result = a.mul_transpose(&b);

    assert_eq!(
        result,
        Matrix::new(vec![vec![1 * 4, 1 * 5], vec![2 * 4, 2 * 5], vec![3 * 4, 3 * 5]]).unwrap()
    );
}

#[test]
fn add_small() {
    let a = vector_of(vec![1, 2, 3]);
    let b = vector_of(vec![1, 2, 2]);

    let ref_ref = (&a).add(&b);
    let move_ref = a.clone().add(&b);
    let ref_move = (&a).add(&b.clone());
    let move_move = a.add(&b);

    assert_eq!(move_ref, ref_ref);
    assert_eq!(move_ref, ref_move);
    assert_eq!(move_ref, move_move);
    assert_eq!(move_ref.unwrap(), vector_of(vec![1 + 1, 2 + 2, 3 + 2]));
}

#[test]
fn sub_small() {
    let a = vector_of(vec![1, 2, 3]);
    let b = vector_of(vec![1, 2, 2]);

    let ref_ref = (&a).sub(&b);
    let move_ref = a.clone().sub(&b);
    let ref_move = (&a).sub(&b.clone());
    let move_move = a.sub(&b);

    assert_eq!(move_ref, ref_ref);
    assert_eq!(move_ref, ref_move);
    assert_eq!(move_ref, move_move);
    assert_eq!(move_ref.unwrap(), vector_of(vec![1 - 1, 2 - 2, 3 - 2]));
}

#[test]
fn vec_add_scalar() {
    let a = vector_of(vec![1, 2, 3]);
    let result = a.add_scalar(1);
    assert_eq!(result, vector_of(vec![2, 3, 4]));
}

#[test]
fn scalar_add_vec() {
    let a = vector_of(vec![1, 2, 3]);
    let result = a.add_scalar(1);
    assert_eq!(result, vector_of(vec![2, 3, 4]));
}

#[test]
fn vec_mul_scalar() {
    let a = vector_of(vec![1, 2, 3]);
    let result = a.mul_scalar(2);
    assert_eq!(result, vector_of(vec![2, 4, 6]));
}

#[test]
fn scalar_mul_vec() {
    let a = vector_of(vec![1, 2, 3]);
    let result = a.mul_scalar(2);
    assert_eq!(result, vector_of(vec![2, 4, 6]));
}

#[test]
fn elementwise_product_and_quotient() {
    let a = vector_of(vec![6, -9, 12]);
    let b = vector_of(vec![2, 3, -4]);
    assert_eq!(a.mul(&b).unwrap(), vector_of(vec![12, -27, -48]));
    assert_eq!(a.div(&b).unwrap(), vector_of(vec![3, -3, -3]));
    assert_eq!(vector_of(vec![7, -7]).div(&vector_of(vec![2, 2])).unwrap(), vector_of(vec![3, -3]));
}

#[test]
fn elementwise_ops_reject_unequal_lengths() {
    let a = vector_of(vec![1, 2, 3]);
    let b = vector_of(vec![1, 2]);
    let mismatch = ShapeError::DimensionMismatch {
        lhs: Dimensions { rows: 3, cols: 1 },
        rhs: Dimensions { rows: 2, cols: 1 },
    };
    assert_eq!(a.add(&b), Err(mismatch));
    assert_eq!(a.sub(&b), Err(mismatch));
    assert_eq!(a.mul(&b), Err(mismatch));
    assert_eq!(a.div(&b), Err(mismatch));
    assert_eq!(a.dot(&b), Err(mismatch));
    assert_eq!(land::vector::dot(&[1, 2, 3], &[1, 2]), Err(mismatch));
}

#[test]
fn negation_and_broadcast() {
    let a = vector_of(vec![4, -8, 0]);
    assert_eq!(a.neg(), vector_of(vec![-4, 8, 0]));
    assert_eq!(a.sub_scalar(1), vector_of(vec![3, -9, -1]));
    assert_eq!(a.div_scalar(4), vector_of(vec![1, -2, 0]));
}

#[test]
fn empty_vectors() {
    let a = Vector::<i64>::zeros(0);
    assert_eq!(a.len(), 0);
    assert_eq!(a.dot(&Vector::new(vec![])), Ok(0));
    assert_eq!(a.mul_transpose(&Vector::new(vec![1, 2])).dim(), Dimensions { rows: 0, cols: 2 });
}

#[test]
fn element_get_and_set() {
    let mut a = vector_of(vec![1, 2, 3]);
    assert_eq!(a.get(2), Ok(3));
    assert_eq!(a.get(3), Err(ShapeError::IndexOutOfRange { index: 3, bound: 3 }));
    assert_eq!(a.set(0, 10), Ok(()));
    assert_eq!(a.set(3, 10), Err(ShapeError::IndexOutOfRange { index: 3, bound: 3 }));
    assert_eq!(a.clone().to_vec(), vec![10, 2, 3]);
    assert_eq!(a.iter().copied().sum::<i32>(), 15);
    a.as_mut_slice()[1] = 20;
    assert_eq!(a.into_iter().collect::<Vec<i32>>(), vec![10, 20, 3]);
}

#[test]
fn integer_arithmetic_wraps() {
    let a = vector_of(vec![i32::MAX, i32::MIN]);
    assert_eq!(a.add_scalar(1), vector_of(vec![i32::MIN, i32::MIN + 1]));
    assert_eq!(a.neg(), vector_of(vec![i32::MIN + 1, i32::MIN]));
    assert_eq!(a.div_scalar(-1), vector_of(vec![i32::MIN + 1, i32::MIN]));
    let u = Vector::<u32>::new(vec![0, 5]);
    assert_eq!(u.sub_scalar(1), Vector::new(vec![u32::MAX, 4]));
    assert_eq!(Vector::<i8>::new(vec![100, -128]).add_scalar(100), Vector::new(vec![-56, -28]));
    assert_eq!(Vector::<u8>::new(vec![200, 3]).mul_scalar(2), Vector::new(vec![144, 6]));
    assert_eq!(Vector::<u128>::new(vec![0]).neg(), Vector::new(vec![0]));
    assert_eq!(Vector::<u16>::new(vec![1]).neg(), Vector::new(vec![u16::MAX]));
    assert_eq!(Vector::<i128>::new(vec![i128::MIN]).div_scalar(-1), Vector::new(vec![i128::MIN]));
}

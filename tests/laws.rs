use land::ops::{dot, mat_mul};
use land::{Matrix, Vector};

fn law_matrix(rows: Vec<Vec<i64>>) -> Matrix<i64> {
    Matrix::new(rows).unwrap()
}

#[test]
fn transpose_twice_is_identity() {
    let m = law_matrix(vec![vec![1, 2, 3], vec![4, 5, 6]]);
    assert_eq!(m.transpose().transpose(), m);
    let empty = Matrix::<i64>::zeros((0, 3).into());
    assert_eq!(empty.transpose().transpose(), empty);
}

#[test]
fn identity_is_a_unit_of_the_product() {
    let m = law_matrix(vec![vec![1, -2, 3], vec![4, 5, -6]]);
    assert_eq!(mat_mul(&Matrix::identity(2), &m).unwrap(), m);
    assert_eq!(mat_mul(&m, &Matrix::identity(3)).unwrap(), m);
}

#[test]
fn dot_product_commutes() {
    let a = Vector::new(vec![1i64, 3, 7, -4]);
    let b = Vector::new(vec![1i64, -2, 2, 9]);
    assert_eq!(dot(&a, &b), dot(&b, &a));
    assert_eq!(dot(&a, &b), Ok(1 - 6 + 14 - 36));
}

#[test]
fn product_is_associative() {
    let a = law_matrix(vec![vec![1, 2], vec![3, 4], vec![5, 6]]);
    let b = law_matrix(vec![vec![1, 0, -1], vec![2, 1, 0]]);
    let c = law_matrix(vec![vec![2, 1], vec![0, -3], vec![1, 1]]);
    let left = a.mul(&b).unwrap().mul(&c).unwrap();
    let right = a.mul(&b.mul(&c).unwrap()).unwrap();
    assert_eq!(left, right);
    assert_eq!(left, law_matrix(vec![vec![9, -2], vec![19, -4], vec![29, -6]]));
}

#[test]
fn product_distributes_over_sum() {
    let a = law_matrix(vec![vec![1, 2], vec![3, 4]]);
    let b = law_matrix(vec![vec![5, 6, 7], vec![8, 9, 10]]);
    let c = law_matrix(vec![vec![-1, 0, 1], vec![2, -2, 3]]);
    let left = a.mul(&b.add(&c).unwrap()).unwrap();
    let right = a.mul(&b).unwrap().add(&a.mul(&c).unwrap()).unwrap();
    assert_eq!(left, right);
}

#[test]
fn wrapping_products_stay_associative() {
    let a = law_matrix(vec![vec![i64::MAX, 3], vec![-7, i64::MIN]]);
    let b = law_matrix(vec![vec![5, i64::MAX], vec![2, 11]]);
    let c = law_matrix(vec![vec![13, -1], vec![i64::MIN + 5, 17]]);
    let left = a.mul(&b).unwrap().mul(&c).unwrap();
    let right = a.mul(&b.mul(&c).unwrap()).unwrap();
    assert_eq!(left, right);
}

use matrix_basic::FieldToMatrix;
use matrix_basic::Fp;
use matrix_basic::Matrix;
use matrix_basic::MatrixError;
use matrix_basic::MatrixInto;

fn fp_rows(rows: Vec<Vec<i64>>) -> Vec<Vec<Fp>> {
    rows.into_iter()
        .map(|r| r.into_iter().map(Fp::new).collect())
        .collect()
}

#[test]
fn mul_test() {
    let a = Matrix::from(vec![vec![1i64, 2, 4], vec![3, 4, 9]]).unwrap();
    let b = Matrix::from(vec![vec![1i64, 2], vec![2, 3], vec![5, 1]]).unwrap();
    let c = Matrix::from(vec![vec![25i64, 12], vec![56, 27]]).unwrap();

    assert_eq!(a.mul(b), c);
}

#[test]
fn add_sub_test() {
    let a = Matrix::from(vec![vec![1i64, 2, 3], vec![0, 1, 2]]).unwrap();
    let b = Matrix::from(vec![vec![0i64, 0, 1], vec![2, 1, 3]]).unwrap();
    let c = Matrix::from(vec![vec![1i64, 2, 4], vec![2, 2, 5]]).unwrap();
    let d = Matrix::from(vec![vec![1i64, 2, 2], vec![-2, 0, -1]]).unwrap();
    let e = Matrix::from(vec![vec![-1i64, -2, -4], vec![-2, -2, -5]]).unwrap();

    assert_eq!(a.clone().add(b.clone()), c);
    assert_eq!(a.sub(b), d);
    assert_eq!(c.neg(), e);
}

#[test]
fn det_test() {
    let a = Matrix::from(vec![vec![1i64, 2, 0], vec![0, 3, 5], vec![0, 0, 10]]).unwrap();
    let b = Matrix::from(vec![vec![1i64, 2, 0], vec![0, 3, 5]]).unwrap();
    let c = Matrix::from(fp_rows(vec![
        vec![0, 0, 10],
        vec![0, 3, 5],
        vec![1, 2, 0],
    ]))
    .unwrap();

    assert_eq!(a.det(), Ok(30));
    assert_eq!(c.det_in_field(), Ok(Fp::new(-30)));
    assert!(b.det().is_err());
}

#[test]
fn zero_one_test() {
    let a = Matrix::from(vec![vec![0i64, 0, 0], vec![0, 0, 0]]).unwrap();
    let b = Matrix::from(vec![vec![1i64, 0], vec![0, 1]]).unwrap();

    assert_eq!(Matrix::<i64>::zero(2, 3), a);
    assert_eq!(Matrix::<i64>::identity(2), b);
}

#[test]
fn echelon_test() {
    let m = Matrix::from(fp_rows(vec![vec![1, 2, 3], vec![1, 0, 1]])).unwrap();
    let a = Matrix::from(fp_rows(vec![vec![1, 2, 3], vec![0, -2, -2]])).unwrap();
    let b = Matrix::from(fp_rows(vec![vec![1, 0, 0], vec![1, -2, 0]])).unwrap();
    let c = Matrix::from(fp_rows(vec![vec![1, 2, 3], vec![0, 1, 1]])).unwrap();

    assert_eq!(m.row_echelon(), a);
    assert_eq!(m.column_echelon(), b);
    assert_eq!(m.reduced_row_echelon(), c);
}

#[test]
fn conversion_test() {
    let a = Matrix::from(vec![vec![1i64, 2, 3], vec![0, 1, 2]]).unwrap();
    let b = Matrix::from(fp_rows(vec![vec![1, 2, 3], vec![0, 1, 2]])).unwrap();

    let c: Matrix<Fp> = a.matrix_into();
    assert_eq!(c, b);
}

#[test]
fn det_two_by_two() {
    let m = Matrix::from(vec![vec![1i64, 2], vec![3, 4]]).unwrap();
    assert_eq!(m.det(), Ok(-2));
}

#[test]
fn det_agreement() {
    let m = Matrix::from(fp_rows(vec![vec![1, 2], vec![3, 4]])).unwrap();
    assert_eq!(m.det(), m.det_in_field());

    let n = Matrix::from(fp_rows(vec![
        vec![0, 0, 10],
        vec![0, 3, 5],
        vec![1, 2, 0],
    ]))
    .unwrap();
    assert_eq!(n.det(), n.det_in_field());

    let z = Matrix::from(fp_rows(vec![vec![1, 2], vec![2, 4]])).unwrap();
    assert_eq!(z.det(), Ok(Fp::new(0)));
    assert_eq!(z.det_in_field(), Ok(Fp::new(0)));
}

#[test]
fn row_echelon_forward() {
    let m = Matrix::from(fp_rows(vec![vec![1, 2, 3], vec![3, 4, 5]])).unwrap();
    let e = Matrix::from(fp_rows(vec![vec![1, 2, 3], vec![0, -2, -4]])).unwrap();
    assert_eq!(m.row_echelon(), e);
}

#[test]
fn inverse_two_by_two() {
    let m = Matrix::from(fp_rows(vec![vec![1, 2], vec![3, 4]])).unwrap();
    let expected = Matrix::from(vec![
        vec![Fp::new(-2), Fp::new(1)],
        vec![Fp::new(3).div_elem(Fp::new(2)), Fp::new(-1).div_elem(Fp::new(2))],
    ])
    .unwrap();
    assert_eq!(m.inverse(), Ok(expected));
}

#[test]
fn inverse_times_self_is_identity() {
    let m = Matrix::from(fp_rows(vec![vec![1, 2], vec![3, 4]])).unwrap();
    let inv = m.inverse().unwrap();
    assert_eq!(m.mul(inv), Matrix::<Fp>::identity(2));
}

#[test]
fn inverse_errors() {
    let rect = Matrix::from(fp_rows(vec![vec![1, 2, 3], vec![4, 5, 6]])).unwrap();
    assert_eq!(rect.inverse(), Err(MatrixError::NotSquare));

    let singular = Matrix::from(fp_rows(vec![vec![1, 2], vec![2, 4]])).unwrap();
    assert_eq!(singular.inverse(), Err(MatrixError::Singular));
}

#[test]
fn from_unequal_rows() {
    let r = Matrix::from(vec![vec![1i64, 2, 3], vec![4, 5]]);
    assert_eq!(r, Err(MatrixError::UnequalRows));
}

#[test]
fn trace_test() {
    let m = Matrix::from(vec![vec![1i64, 2], vec![3, 4]]).unwrap();
    assert_eq!(m.trace(), Ok(5));

    let rect = Matrix::from(vec![vec![1i64, 2, 3], vec![4, 5, 6]]).unwrap();
    assert_eq!(rect.trace(), Err(MatrixError::NotSquare));
}

#[test]
fn submatrix_test() {
    let m = Matrix::from(vec![vec![1i64, 2, 3], vec![4, 5, 6]]).unwrap();
    let n = Matrix::from(vec![vec![5i64, 6]]).unwrap();
    assert_eq!(m.submatrix(0, 0), n);
}

#[test]
fn transpose_test() {
    let m = Matrix::from(vec![vec![1i64, 2, 3], vec![4, 5, 6]]).unwrap();
    let t = Matrix::from(vec![vec![1i64, 4], vec![2, 5], vec![3, 6]]).unwrap();
    assert_eq!(m.transpose(), t);
    assert_eq!(m.transpose().transpose(), m);
}

#[test]
fn rows_and_columns_test() {
    let m = Matrix::from(vec![vec![1i64, 2, 3], vec![4, 5, 6]]).unwrap();
    assert_eq!(m.rows(), &vec![vec![1i64, 2, 3], vec![4, 5, 6]]);
    assert_eq!(m.columns(), vec![vec![1i64, 4], vec![2, 5], vec![3, 6]]);
    assert_eq!(m.height(), 2);
    assert_eq!(m.width(), 3);
    assert!(!m.is_square());
}

#[test]
fn diagonal_matrix_test() {
    let m = Matrix::diagonal_matrix(vec![1i64, 2, 3]);
    let n = Matrix::from(vec![vec![1i64, 0, 0], vec![0, 2, 0], vec![0, 0, 3]]).unwrap();
    assert_eq!(m, n);
}

#[test]
fn mul_scalar_test() {
    let mut m = Matrix::from(vec![vec![1i64, 2, 0], vec![0, 2, 5], vec![0, 0, 3]]).unwrap();
    let n = Matrix::from(vec![vec![2i64, 4, 0], vec![0, 4, 10], vec![0, 0, 6]]).unwrap();
    m.mul_scalar(2);
    assert_eq!(m, n);
}

#[test]
fn add_laws_on_values() {
    let a = Matrix::from(vec![vec![1i64, 2], vec![3, 4]]).unwrap();
    let b = Matrix::from(vec![vec![5i64, 6], vec![7, 8]]).unwrap();
    let c = Matrix::from(vec![vec![-1i64, 0], vec![2, -9]]).unwrap();

    let left = a.clone().add(b.clone()).add(c.clone());
    let right = a.clone().add(b.clone().add(c.clone()));
    assert_eq!(left, right);

    assert_eq!(a.clone().add(b.clone()), b.add(a.clone()));

    assert_eq!(a.clone().add(a.neg()), Matrix::<i64>::zero(2, 2));
}

#[test]
fn identity_law_on_values() {
    let a = Matrix::from(vec![vec![1i64, 2], vec![3, 4]]).unwrap();
    assert_eq!(a.clone().mul(Matrix::<i64>::identity(2)), a);
    assert_eq!(Matrix::<i64>::identity(2).mul(a.clone()), a);
}

#[test]
fn wrapping_ring_on_extremes() {
    let m = Matrix::from(vec![vec![i64::MAX]]).unwrap();
    let one = Matrix::from(vec![vec![1i64]]).unwrap();
    assert_eq!(m.add(one), Matrix::from(vec![vec![i64::MIN]]).unwrap());
}

#[test]
fn fp_residues() {
    assert_eq!(Fp::new(-2), Fp::new(65519));
    assert_eq!(Fp::new(65521), Fp::new(0));
    assert_eq!(Fp::new(-65521), Fp::new(0));
}

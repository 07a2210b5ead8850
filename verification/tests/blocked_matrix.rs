use rmatrix::error::MatrixError;
use rmatrix::matrices::basic_matrix::BasicMatrix;
use rmatrix::matrices::blocked_matrix::BLOCK_SIZE;
use rmatrix::matrices::blocked_matrix::BlockedMatrix;
use rmatrix::scalar::Scalar;
use rmatrix::Matrix;

#[derive(Clone, Copy, Debug, PartialEq)]
struct Real(f64);

impl Scalar for Real {
    fn spec_zero() -> Self {
        Real(0.0)
    }

    fn spec_one() -> Self {
        Real(1.0)
    }

    fn spec_plus(self, rhs: Self) -> Self {
        Real(self.0 + rhs.0)
    }

    fn spec_minus(self, rhs: Self) -> Self {
        Real(self.0 - rhs.0)
    }

    fn spec_times(self, rhs: Self) -> Self {
        Real(self.0 * rhs.0)
    }

    fn zero() -> Self {
        Real(0.0)
    }

    fn one() -> Self {
        Real(1.0)
    }

    fn plus(self, rhs: Self) -> Self {
        Real(self.0 + rhs.0)
    }

    fn minus(self, rhs: Self) -> Self {
        Real(self.0 - rhs.0)
    }

    fn times(self, rhs: Self) -> Self {
        Real(self.0 * rhs.0)
    }
}

fn reals(rows: Vec<Vec<f64>>) -> Vec<Vec<Real>> {
    rows.into_iter().map(|row| row.into_iter().map(Real).collect()).collect()
}

fn test_new<T: Matrix<Elem = Real>>() {
    let data = reals(vec![vec![1.0, 2.0], vec![3.0, 4.0]]);
    let matrix = T::new(data.clone()).unwrap();

    assert_eq!(matrix.shape(), (2, 2));
    assert_eq!(matrix.num_rows(), 2);
    assert_eq!(matrix.num_cols(), 2);
    assert_eq!(matrix.get_data(), data);
}

fn test_zeroes<T: Matrix<Elem = Real>>() {
    let matrix = T::zeroes(2, 3);

    // Check dimensions
    assert_eq!(matrix.num_rows(), 2);
    assert_eq!(matrix.num_cols(), 3);

    // Check all elements are zero
    for row in matrix.get_data() {
        for val in row {
            assert_eq!(val, Real(0.0));
        }
    }
}

fn test_identity<T: Matrix<Elem = Real>>() {
    let matrix = T::identity(3);

    // Check dimensions
    assert_eq!(matrix.num_rows(), 3);
    assert_eq!(matrix.num_cols(), 3);

    // Check diagonal elements are 1 and others are 0
    for i in 0..3 {
        for j in 0..3 {
            if i == j {
                assert_eq!(matrix.get_data()[i][j], Real(1.0));
            } else {
                assert_eq!(matrix.get_data()[i][j], Real(0.0));
            }
        }
    }
}

fn test_matrix_multiplication_identity<T: Matrix<Elem = Real>>() {
    let data = reals(vec![vec![1.0, 2.0, 3.0], vec![4.0, 5.0, 6.0]]);
    let matrix = T::new(data.clone()).unwrap();
    let identity = T::identity(3); // Identity matrix for multiplication

    let result = matrix.matrix_multiplication(&identity).unwrap();

    // Should be unchanged after multiplying by identity
    assert_eq!(result.get_data(), data);
}

fn test_matrix_addition<T: Matrix<Elem = Real>>() {
    let matrix1 = T::new(reals(vec![vec![1.0, 2.0], vec![3.0, 4.0]])).unwrap();
    let matrix2 = T::new(reals(vec![vec![5.0, 6.0], vec![7.0, 8.0]])).unwrap();

    let result = matrix1.matrix_addition(&matrix2).unwrap();

    // Check result
    assert_eq!(result.get_data(), reals(vec![vec![6.0, 8.0], vec![10.0, 12.0]]));
}

fn test_matrix_subtraction<T: Matrix<Elem = Real>>() {
    let matrix1 = T::new(reals(vec![vec![5.0, 6.0], vec![7.0, 8.0]])).unwrap();
    let matrix2 = T::new(reals(vec![vec![1.0, 2.0], vec![3.0, 4.0]])).unwrap();

    let result = matrix1.matrix_subtraction(&matrix2).unwrap();

    // Check result
    assert_eq!(result.get_data(), reals(vec![vec![4.0, 4.0], vec![4.0, 4.0]]));
}

fn test_matrix_multiplication<T: Matrix<Elem = Real>>() {
    let matrix1 = T::new(reals(vec![vec![1.0, 2.0, 3.0], vec![4.0, 5.0, 6.0]])).unwrap();
    let matrix2 =
        T::new(reals(vec![vec![7.0, 8.0], vec![9.0, 10.0], vec![11.0, 12.0]])).unwrap();

    let result = matrix1.matrix_multiplication(&matrix2).unwrap();

    // Check dimensions
    assert_eq!(result.num_rows(), 2);
    assert_eq!(result.num_cols(), 2);

    // Check result: [1*7+2*9+3*11, 1*8+2*10+3*12; 4*7+5*9+6*11, 4*8+5*10+6*12]
    assert_eq!(result.get_data(), reals(vec![vec![58.0, 64.0], vec![139.0, 154.0]]));
}

fn test_scalar_multiplication<T: Matrix<Elem = Real>>() {
    let matrix = T::new(reals(vec![vec![1.0, 2.0], vec![3.0, 4.0]])).unwrap();
    let scalar = Real(2.0);

    let result = matrix.scalar_multiplication(scalar).unwrap();

    // Check result
    assert_eq!(result.get_data(), reals(vec![vec![2.0, 4.0], vec![6.0, 8.0]]));
}

#[test]
fn blocked_matrix_test_new() {
    test_new::<BlockedMatrix<Real>>();
}

#[test]
fn blocked_matrix_test_zeroes() {
    test_zeroes::<BlockedMatrix<Real>>();
}

#[test]
fn blocked_matrix_test_identity() {
    test_identity::<BlockedMatrix<Real>>();
}

#[test]
fn blocked_matrix_test_matrix_multiplication_identity() {
    test_matrix_multiplication_identity::<BlockedMatrix<Real>>();
}

#[test]
fn blocked_matrix_test_matrix_addition() {
    test_matrix_addition::<BlockedMatrix<Real>>();
}

#[test]
fn blocked_matrix_test_matrix_subtraction() {
    test_matrix_subtraction::<BlockedMatrix<Real>>();
}

#[test]
fn blocked_matrix_test_matrix_multiplication() {
    test_matrix_multiplication::<BlockedMatrix<Real>>();
}

#[test]
fn blocked_matrix_test_scalar_multiplication() {
    test_scalar_multiplication::<BlockedMatrix<Real>>();
}

fn sample(rows: usize, cols: usize, seed: u64) -> Vec<Vec<Real>> {
    let mut state = seed;
    let mut out = Vec::new();
    for _ in 0..rows {
        let mut row = Vec::new();
        for _ in 0..cols {
            state = state.wrapping_mul(6364136223846793005).wrapping_add(1442695040888963407);
            row.push(Real(((state >> 33) % 2001) as f64 / 7.0 - 125.0));
        }
        out.push(row);
    }
    out
}

#[test]
fn blocked_matrix_block_size_is_eight() {
    assert_eq!(BLOCK_SIZE, 8);
}

#[test]
fn blocked_matrix_product_is_the_same_for_every_block_size() {
    let left = sample(19, 23, 1);
    let right = sample(23, 17, 2);
    let expected = BasicMatrix::new(left.clone())
        .unwrap()
        .matrix_multiplication(&BasicMatrix::new(right.clone()).unwrap())
        .unwrap()
        .get_data();
    let a = BlockedMatrix::new(left).unwrap();
    let b = BlockedMatrix::new(right).unwrap();

    for block in [1usize, 7, 8, 64] {
        let product = a.matrix_multiplication_with_block_size(&b, block).unwrap();
        assert_eq!(product.shape(), (19, 17));
        assert_eq!(product.get_data(), expected);
    }
    assert_eq!(a.matrix_multiplication(&b).unwrap().get_data(), expected);
}

#[test]
fn blocked_matrix_handles_extents_that_are_no_multiple_of_the_block() {
    let left = sample(9, 10, 3);
    let right = sample(9, 10, 4);
    let a = BlockedMatrix::new(left.clone()).unwrap();
    let b = BlockedMatrix::new(right.clone()).unwrap();
    let plain_a = BasicMatrix::new(left).unwrap();
    let plain_b = BasicMatrix::new(right).unwrap();

    assert_eq!(
        a.matrix_addition(&b).unwrap().get_data(),
        plain_a.matrix_addition(&plain_b).unwrap().get_data()
    );
    assert_eq!(
        a.matrix_subtraction(&b).unwrap().get_data(),
        plain_a.matrix_subtraction(&plain_b).unwrap().get_data()
    );
    assert_eq!(
        a.scalar_multiplication(Real(-1.5)).unwrap().get_data(),
        plain_a.scalar_multiplication(Real(-1.5)).unwrap().get_data()
    );
    assert_eq!(a.get(8, 9), plain_a.get_data()[8][9]);
    assert_eq!(a.get_data_vec().len(), 90);
}

#[test]
fn blocked_matrix_refuses_operands_that_do_not_fit() {
    let square = BlockedMatrix::new(reals(vec![vec![1.0, 2.0], vec![3.0, 4.0]])).unwrap();
    let wide = BlockedMatrix::new(reals(vec![vec![1.0, 2.0, 3.0], vec![4.0, 5.0, 6.0]])).unwrap();
    let tall =
        BlockedMatrix::new(reals(vec![vec![1.0, 2.0], vec![3.0, 4.0], vec![5.0, 6.0]])).unwrap();

    assert_eq!(square.matrix_addition(&wide).err(), Some(MatrixError::DimensionMismatch));
    assert_eq!(square.matrix_subtraction(&wide).err(), Some(MatrixError::DimensionMismatch));
    assert_eq!(square.matrix_multiplication(&tall).err(), Some(MatrixError::DimensionMismatch));
    assert_eq!(
        square.matrix_multiplication_with_block_size(&tall, 3).err(),
        Some(MatrixError::DimensionMismatch)
    );
    assert_eq!(BlockedMatrix::<Real>::new(vec![]).err(), Some(MatrixError::ShapeError));
}

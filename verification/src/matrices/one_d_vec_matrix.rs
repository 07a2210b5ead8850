use vstd::prelude::*;
use crate::elementwise::elementwise_buffer;
use crate::error::MatrixError;
use crate::flat::{
    flat_index, flatten, identity_buffer, is_flat, lemma_identity_buffer, lemma_unflatten,
    lemma_zero_buffer, product_buffer, unflatten_rows, zero_buffer,
};
use crate::model::{col_count, row_count, same_shape, unflatten, Rows};
use crate::scalar::{ElementOp, Scalar};
use crate::Matrix;

verus! {

/// The flat representation: one row-major buffer, element `(row, col)` at
/// `row * cols + col`, and the same loops as the plain representation.
#[derive(Debug)]
pub struct OneDVecMatrix<T: Scalar> {
    data: Vec<T>,
    shape: (usize, usize),
}

impl<T: Scalar> OneDVecMatrix<T> {
    fn new_from_vec(data: Vec<T>, rows: usize, cols: usize) -> (m: Self)
        requires
            is_flat(data@, rows as nat, cols as nat),
        ensures
            m.wf(),
            m.entries() == unflatten(data@, rows as nat, cols as nat),
    {
        Self { data, shape: (rows, cols) }
    }

    /// The row-major buffer itself.
    pub fn get_data_vec(&self) -> (buf: &Vec<T>)
        requires
            self.wf(),
        ensures
            is_flat(buf@, row_count(self.entries()), col_count(self.entries())),
            unflatten(buf@, row_count(self.entries()), col_count(self.entries()))
                == self.entries(),
    {
        proof {
            lemma_unflatten(self.data@, self.shape.0 as nat, self.shape.1 as nat);
        }
        &self.data
    }

    /// The element in row `row` and column `col`.
    #[inline(always)]
    pub fn get(&self, row: usize, col: usize) -> (x: T)
        requires
            self.wf(),
            row < row_count(self.entries()),
            col < col_count(self.entries()),
        ensures
            x == self.entries()[row as int][col as int],
    {
        proof {
            lemma_unflatten(self.data@, self.shape.0 as nat, self.shape.1 as nat);
        }
        self.data[flat_index(self.shape.0, self.shape.1, row, col)]
    }
}

impl<T: Scalar> Matrix for OneDVecMatrix<T> {
    type Elem = T;

    closed spec fn wf(&self) -> bool {
        is_flat(self.data@, self.shape.0 as nat, self.shape.1 as nat)
    }

    closed spec fn entries(&self) -> Rows<T> {
        unflatten(self.data@, self.shape.0 as nat, self.shape.1 as nat)
    }

    open spec fn ready_as_right_operand(&self) -> bool {
        true
    }

    proof fn lemma_well_shaped(&self) {
        lemma_unflatten(self.data@, self.shape.0 as nat, self.shape.1 as nat);
    }

    fn new(data: Vec<Vec<T>>) -> (r: Result<Self, MatrixError>) {
        match flatten(data) {
            Ok((buf, rows, cols)) => Ok(Self::new_from_vec(buf, rows, cols)),
            Err(e) => Err(e),
        }
    }

    fn shape(&self) -> (s: (usize, usize)) {
        proof {
            self.lemma_well_shaped();
        }
        self.shape
    }

    fn num_rows(&self) -> (n: usize) {
        proof {
            self.lemma_well_shaped();
        }
        self.shape.0
    }

    fn num_cols(&self) -> (n: usize) {
        proof {
            self.lemma_well_shaped();
        }
        self.shape.1
    }

    fn get_data(&self) -> (rows: Vec<Vec<T>>) {
        unflatten_rows(&self.data, self.shape.0, self.shape.1)
    }

    fn zeroes(rows: usize, cols: usize) -> (m: Self) {
        let data = zero_buffer::<T>(rows, cols);
        proof {
            lemma_zero_buffer::<T>(data@, rows as nat, cols as nat);
        }
        Self::new_from_vec(data, rows, cols)
    }

    fn identity(size: usize) -> (m: Self) {
        let data = identity_buffer::<T>(size);
        proof {
            lemma_identity_buffer::<T>(data@, size as nat);
        }
        Self::new_from_vec(data, size, size)
    }

    fn matrix_addition(&self, other: &Self) -> (r: Result<Self, MatrixError>)
        ensures
            same_shape(self.entries(), other.entries()) ==> r is Ok,
    {
        proof {
            self.lemma_well_shaped();
            other.lemma_well_shaped();
        }
        if self.shape.0 != other.shape.0 || self.shape.1 != other.shape.1 {
            return Err(MatrixError::DimensionMismatch);
        }
        let data = elementwise_buffer(
            ElementOp::Plus,
            &self.data,
            &other.data,
            self.shape.0,
            self.shape.1,
        );
        Ok(Self::new_from_vec(data, self.shape.0, self.shape.1))
    }

    fn matrix_subtraction(&self, other: &Self) -> (r: Result<Self, MatrixError>)
        ensures
            same_shape(self.entries(), other.entries()) ==> r is Ok,
    {
        proof {
            self.lemma_well_shaped();
            other.lemma_well_shaped();
        }
        if self.shape.0 != other.shape.0 || self.shape.1 != other.shape.1 {
            return Err(MatrixError::DimensionMismatch);
        }
        let data = elementwise_buffer(
            ElementOp::Minus,
            &self.data,
            &other.data,
            self.shape.0,
            self.shape.1,
        );
        Ok(Self::new_from_vec(data, self.shape.0, self.shape.1))
    }

    fn matrix_multiplication(&self, other: &Self) -> (r: Result<Self, MatrixError>)
        ensures
            col_count(self.entries()) == row_count(other.entries()) ==> r is Ok,
    {
        proof {
            self.lemma_well_shaped();
            other.lemma_well_shaped();
        }
        if self.shape.1 != other.shape.0 {
            return Err(MatrixError::DimensionMismatch);
        }
        let data = product_buffer(
            &self.data,
            self.shape.0,
            self.shape.1,
            &other.data,
            other.shape.1,
            false,
        );
        Ok(Self::new_from_vec(data, self.shape.0, other.shape.1))
    }

    fn scalar_multiplication(&self, scalar: T) -> (r: Result<Self, MatrixError>)
        ensures
            r is Ok,
    {
        let data = elementwise_buffer(
            ElementOp::Times(scalar),
            &self.data,
            &self.data,
            self.shape.0,
            self.shape.1,
        );
        Ok(Self::new_from_vec(data, self.shape.0, self.shape.1))
    }
}

} // verus!

use vstd::prelude::*;
use crate::error::MatrixError;
use crate::elementwise::{lemma_elementwise_buffer, tiled_elementwise};
use crate::flat::{
    flat_index, flatten, identity_buffer, is_flat, lemma_identity_buffer, lemma_unflatten,
    lemma_zero_buffer, unflatten_rows, zero_buffer,
};
use crate::kernel::blocked_product;
use crate::model::{col_count, matrix_product, row_count, same_shape, unflatten, Rows};
use crate::scalar::{ElementOp, Scalar};
use crate::Matrix;

verus! {

/// The edge length of the blocks that the loops are cut into.
pub const BLOCK_SIZE: usize = 8;

/// The blocked representation: one row-major buffer, and loops that are cut
/// into blocks of `BLOCK_SIZE`, so that what one block reads and writes stays
/// close together.
#[derive(Debug)]
pub struct BlockedMatrix<T: Scalar> {
    data: Vec<T>,
    shape: (usize, usize),
}

impl<T: Scalar> BlockedMatrix<T> {
    fn new_from_vec(data: Vec<T>, rows: usize, cols: usize) -> (m: Self)
        requires
            is_flat(data@, rows as nat, cols as nat),
        ensures
            m.wf(),
            m.entries() == unflatten(data@, rows as nat, cols as nat),
    {
        Self { data, shape: (rows, cols) }
    }

    /// The row-major buffer itself.
    pub fn get_data_vec(&self) -> (buf: &Vec<T>)
        requires
            self.wf(),
        ensures
            is_flat(buf@, row_count(self.entries()), col_count(self.entries())),
            unflatten(buf@, row_count(self.entries()), col_count(self.entries()))
                == self.entries(),
    {
        proof {
            lemma_unflatten(self.data@, self.shape.0 as nat, self.shape.1 as nat);
        }
        &self.data
    }

    /// The element in row `row` and column `col`.
    #[inline(always)]
    pub fn get(&self, row: usize, col: usize) -> (x: T)
        requires
            self.wf(),
            row < row_count(self.entries()),
            col < col_count(self.entries()),
        ensures
            x == self.entries()[row as int][col as int],
    {
        proof {
            lemma_unflatten(self.data@, self.shape.0 as nat, self.shape.1 as nat);
        }
        self.data[flat_index(self.shape.0, self.shape.1, row, col)]
    }

    /// The matrix product, computed in blocks of `block` by `block`. The
    /// result does not depend on `block`: it is the product that the plain
    /// triple loop gives, element for element.
    pub fn matrix_multiplication_with_block_size(&self, other: &Self, block: usize) -> (r: Result<
        Self,
        MatrixError,
    >)
        requires
            self.wf(),
            other.wf(),
            block >= 1,
        ensures
            match r {
                Ok(m) => {
                    &&& col_count(self.entries()) == row_count(other.entries())
                    &&& m.wf()
                    &&& m.entries() == matrix_product(self.entries(), other.entries())
                },
                Err(e) => {
                    &&& col_count(self.entries()) != row_count(other.entries())
                    &&& e == MatrixError::DimensionMismatch
                },
            },
    {
        proof {
            self.lemma_well_shaped();
            other.lemma_well_shaped();
        }
        if self.shape.1 != other.shape.0 {
            return Err(MatrixError::DimensionMismatch);
        }
        let data = blocked_product(
            &self.data,
            self.shape.0,
            self.shape.1,
            &other.data,
            other.shape.1,
            block,
        );
        Ok(Self::new_from_vec(data, self.shape.0, other.shape.1))
    }
}

impl<T: Scalar> Matrix for BlockedMatrix<T> {
    type Elem = T;

    closed spec fn wf(&self) -> bool {
        is_flat(self.data@, self.shape.0 as nat, self.shape.1 as nat)
    }

    closed spec fn entries(&self) -> Rows<T> {
        unflatten(self.data@, self.shape.0 as nat, self.shape.1 as nat)
    }

    open spec fn ready_as_right_operand(&self) -> bool {
        true
    }

    proof fn lemma_well_shaped(&self) {
        lemma_unflatten(self.data@, self.shape.0 as nat, self.shape.1 as nat);
    }

    fn new(data: Vec<Vec<T>>) -> (r: Result<Self, MatrixError>) {
        match flatten(data) {
            Ok((buf, rows, cols)) => Ok(Self::new_from_vec(buf, rows, cols)),
            Err(e) => Err(e),
        }
    }

    fn shape(&self) -> (s: (usize, usize)) {
        proof {
            self.lemma_well_shaped();
        }
        self.shape
    }

    fn num_rows(&self) -> (n: usize) {
        proof {
            self.lemma_well_shaped();
        }
        self.shape.0
    }

    fn num_cols(&self) -> (n: usize) {
        proof {
            self.lemma_well_shaped();
        }
        self.shape.1
    }

    fn get_data(&self) -> (rows: Vec<Vec<T>>) {
        unflatten_rows(&self.data, self.shape.0, self.shape.1)
    }

    fn zeroes(rows: usize, cols: usize) -> (m: Self) {
        let data = zero_buffer::<T>(rows, cols);
        proof {
            lemma_zero_buffer::<T>(data@, rows as nat, cols as nat);
        }
        Self::new_from_vec(data, rows, cols)
    }

    fn identity(size: usize) -> (m: Self) {
        let data = identity_buffer::<T>(size);
        proof {
            lemma_identity_buffer::<T>(data@, size as nat);
        }
        Self::new_from_vec(data, size, size)
    }

    fn matrix_addition(&self, other: &Self) -> (r: Result<Self, MatrixError>)
        ensures
            same_shape(self.entries(), other.entries()) ==> r is Ok,
    {
        proof {
            self.lemma_well_shaped();
            other.lemma_well_shaped();
        }
        if self.shape.0 != other.shape.0 || self.shape.1 != other.shape.1 {
            return Err(MatrixError::DimensionMismatch);
        }
        let data = tiled_elementwise(
            ElementOp::Plus,
            &self.data,
            &other.data,
            self.shape.0,
            self.shape.1,
            BLOCK_SIZE,
        );
        proof {
            lemma_elementwise_buffer(
                ElementOp::<T>::Plus,
                data@,
                self.data@,
                other.data@,
                self.shape.0 as nat,
                self.shape.1 as nat,
            );
        }
        Ok(Self::new_from_vec(data, self.shape.0, self.shape.1))
    }

    fn matrix_subtraction(&self, other: &Self) -> (r: Result<Self, MatrixError>)
        ensures
            same_shape(self.entries(), other.entries()) ==> r is Ok,
    {
        proof {
            self.lemma_well_shaped();
            other.lemma_well_shaped();
        }
        if self.shape.0 != other.shape.0 || self.shape.1 != other.shape.1 {
            return Err(MatrixError::DimensionMismatch);
        }
        let data = tiled_elementwise(
            ElementOp::Minus,
            &self.data,
            &other.data,
            self.shape.0,
            self.shape.1,
            BLOCK_SIZE,
        );
        proof {
            lemma_elementwise_buffer(
                ElementOp::<T>::Minus,
                data@,
                self.data@,
                other.data@,
                self.shape.0 as nat,
                self.shape.1 as nat,
            );
        }
        Ok(Self::new_from_vec(data, self.shape.0, self.shape.1))
    }

    fn matrix_multiplication(&self, other: &Self) -> (r: Result<Self, MatrixError>)
        ensures
            col_count(self.entries()) == row_count(other.entries()) ==> r is Ok,
    {
        self.matrix_multiplication_with_block_size(other, BLOCK_SIZE)
    }

    fn scalar_multiplication(&self, scalar: T) -> (r: Result<Self, MatrixError>)
        ensures
            r is Ok,
    {
        let data = tiled_elementwise(
            ElementOp::Times(scalar),
            &self.data,
            &self.data,
            self.shape.0,
            self.shape.1,
            BLOCK_SIZE,
        );
        proof {
            lemma_elementwise_buffer(
                ElementOp::Times(scalar),
                data@,
                self.data@,
                self.data@,
                self.shape.0 as nat,
                self.shape.1 as nat,
            );
        }
        Ok(Self::new_from_vec(data, self.shape.0, self.shape.1))
    }
}

} // verus!

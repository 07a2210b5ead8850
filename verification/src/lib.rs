//! Dense matrices in several representations behind one contract.
//!
//! A matrix is a value with at least one row and one column. It is made from
//! row-major nested data, as a zero or an identity matrix, or as the result of
//! an operation; the operations are addition, subtraction, multiplication and
//! scaling, and each hands back a new matrix.
//!
//! The representations differ in how they store a matrix and in how they walk
//! through it, not in what they compute: [`Matrix`] states the result of every
//! operation over the rows that a matrix stands for, and each representation
//! is verified against it.
//!
//! - [`matrices::basic_matrix`]: one vector per row, the defining loops.
//! - [`matrices::one_d_vec_matrix`]: one row-major buffer, the same loops.
//! - [`matrices::blocked_matrix`]: loops cut into blocks.
//! - [`matrices::multithread_matrix`]: the blocks of the output, or runs of
//!   the buffer, handed to workers that write nothing in common.
//! - [`matrices::transposed_view_matrix`]: a transposed copy beside the
//!   buffer, read row by row in a multiplication.
//! - [`matrices::blas_matrix`]: the buffer and the call description for a
//!   dense kernel that lives outside this library.
//!
//! The elements are of any type with the arithmetic of [`scalar::Scalar`].

use vstd::prelude::*;
use crate::error::MatrixError;
use crate::model::{
    col_count, identity_matrix, matrix_difference, matrix_product, matrix_scaled, matrix_sum,
    nested_view, row_count, same_shape, well_shaped, zero_matrix, Rows,
};
use crate::scalar::Scalar;

pub mod elementwise;
pub mod error;
pub mod flat;
pub mod kernel;
pub mod laws;
pub mod matrices;
pub mod model;
pub mod scalar;
pub mod tiling;

verus! {

/// What every matrix representation offers, and what each of its operations
/// returns, stated once over the rows that a matrix stands for.
///
/// Operands are only read; every operation hands back a new matrix.
pub trait Matrix: Sized {
    type Elem: Scalar;

    /// The representation's invariant.
    spec fn wf(&self) -> bool;

    /// The rows that this matrix stands for.
    spec fn entries(&self) -> Rows<Self::Elem>;

    /// Whether this matrix can stand on the right of a multiplication.
    spec fn ready_as_right_operand(&self) -> bool;

    /// A matrix that meets its invariant has at least one row and one column,
    /// and rows of one length.
    proof fn lemma_well_shaped(&self)
        requires
            self.wf(),
        ensures
            well_shaped(self.entries()),
    ;

    /// Takes over `data` as the rows of a matrix, unless it has no row, no
    /// column, or rows of unequal length.
    fn new(data: Vec<Vec<Self::Elem>>) -> (r: Result<Self, MatrixError>)
        ensures
            match r {
                Ok(m) => {
                    &&& well_shaped(nested_view(data))
                    &&& m.wf()
                    &&& m.entries() == nested_view(data)
                    &&& m.ready_as_right_operand()
                },
                Err(e) => !well_shaped(nested_view(data)) && e == MatrixError::ShapeError,
            },
    ;

    fn shape(&self) -> (s: (usize, usize))
        requires
            self.wf(),
        ensures
            s.0 == row_count(self.entries()),
            s.1 == col_count(self.entries()),
    ;

    fn num_rows(&self) -> (n: usize)
        requires
            self.wf(),
        ensures
            n == row_count(self.entries()),
    ;

    fn num_cols(&self) -> (n: usize)
        requires
            self.wf(),
        ensures
            n == col_count(self.entries()),
    ;

    /// The rows of this matrix, as a nested vector of its own.
    fn get_data(&self) -> (rows: Vec<Vec<Self::Elem>>)
        requires
            self.wf(),
        ensures
            nested_view(rows) == self.entries(),
    ;

    fn zeroes(rows: usize, cols: usize) -> (m: Self)
        requires
            rows >= 1,
            cols >= 1,
        ensures
            m.wf(),
            m.entries() == zero_matrix::<Self::Elem>(rows as nat, cols as nat),
            m.ready_as_right_operand(),
    ;

    fn identity(size: usize) -> (m: Self)
        requires
            size >= 1,
        ensures
            m.wf(),
            m.entries() == identity_matrix::<Self::Elem>(size as nat),
            m.ready_as_right_operand(),
    ;

    /// The elementwise sum. Operands of different shapes are refused; a
    /// representation that hands work to other threads may also report that
    /// they failed.
    fn matrix_addition(&self, other: &Self) -> (r: Result<Self, MatrixError>)
        requires
            self.wf(),
            other.wf(),
        ensures
            match r {
                Ok(m) => {
                    &&& same_shape(self.entries(), other.entries())
                    &&& m.wf()
                    &&& m.entries() == matrix_sum(self.entries(), other.entries())
                },
                Err(e) => {
                    if same_shape(self.entries(), other.entries()) {
                        e == MatrixError::WorkerFailure
                    } else {
                        e == MatrixError::DimensionMismatch
                    }
                },
            },
    ;

    /// The elementwise difference, refused and reported as the sum is.
    fn matrix_subtraction(&self, other: &Self) -> (r: Result<Self, MatrixError>)
        requires
            self.wf(),
            other.wf(),
        ensures
            match r {
                Ok(m) => {
                    &&& same_shape(self.entries(), other.entries())
                    &&& m.wf()
                    &&& m.entries() == matrix_difference(self.entries(), other.entries())
                },
                Err(e) => {
                    if same_shape(self.entries(), other.entries()) {
                        e == MatrixError::WorkerFailure
                    } else {
                        e == MatrixError::DimensionMismatch
                    }
                },
            },
    ;

    /// The matrix product, each element accumulated from zero in ascending
    /// order of the contraction index. A right operand that is not ready is
    /// refused first, then one whose row count differs from the column count
    /// of `self`.
    fn matrix_multiplication(&self, other: &Self) -> (r: Result<Self, MatrixError>)
        requires
            self.wf(),
            other.wf(),
        ensures
            match r {
                Ok(m) => {
                    &&& other.ready_as_right_operand()
                    &&& col_count(self.entries()) == row_count(other.entries())
                    &&& m.wf()
                    &&& m.entries() == matrix_product(self.entries(), other.entries())
                },
                Err(e) => {
                    if !other.ready_as_right_operand() {
                        e == MatrixError::PreconditionError
                    } else if col_count(self.entries()) != row_count(other.entries()) {
                        e == MatrixError::DimensionMismatch
                    } else {
                        e == MatrixError::WorkerFailure
                    }
                },
            },
    ;

    /// Every element multiplied by `scalar` on the right. Only a
    /// representation that hands work to other threads can fail here.
    fn scalar_multiplication(&self, scalar: Self::Elem) -> (r: Result<Self, MatrixError>)
        requires
            self.wf(),
        ensures
            match r {
                Ok(m) => m.wf() && m.entries() == matrix_scaled(self.entries(), scalar),
                Err(e) => e == MatrixError::WorkerFailure,
            },
    ;
}

} // verus!

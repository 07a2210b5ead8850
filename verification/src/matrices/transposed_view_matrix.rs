use vstd::prelude::*;
use crate::elementwise::elementwise_buffer;
use crate::error::MatrixError;
use crate::flat::{
    flat_index, flatten, identity_buffer, is_flat, lemma_identity_buffer, lemma_transposed_twice,
    lemma_unflatten, lemma_zero_buffer, product_buffer, transposed_buffer, unflatten_rows,
    zero_buffer,
};
use crate::model::{col_count, row_count, same_shape, transposed, unflatten, Rows};
use crate::scalar::{ElementOp, Scalar};
use crate::Matrix;

verus! {

/// The transposed-view representation: a row-major buffer and, beside it, a
/// second buffer of the same size. Where the matrix carries a transposed
/// copy, the second buffer holds the transpose, and a multiplication reads
/// its right operand along the rows of that copy. Where it carries none, the
/// second buffer holds zeros.
#[derive(Debug)]
pub struct TransposedViewMatrix<T: Scalar> {
    data: Vec<T>,
    transposed_data: Vec<T>,
    transposed: bool,
    shape: (usize, usize),
}

impl<T: Scalar> TransposedViewMatrix<T> {
    /// Whether the second buffer holds the transpose.
    pub closed spec fn has_transposed_copy(&self) -> bool {
        self.transposed
    }

    fn new_from_vec(data: Vec<T>, rows: usize, cols: usize, eager: bool) -> (m: Self)
        requires
            is_flat(data@, rows as nat, cols as nat),
        ensures
            m.wf(),
            m.entries() == unflatten(data@, rows as nat, cols as nat),
            m.has_transposed_copy() == eager,
    {
        if eager {
            let transposed_data = transposed_buffer(&data, rows, cols);
            Self { data, transposed_data, transposed: true, shape: (rows, cols) }
        } else {
            let transposed_data = zero_buffer::<T>(cols, rows);
            proof {
                assert(cols * rows == rows * cols) by (nonlinear_arith);
            }
            Self { data, transposed_data, transposed: false, shape: (rows, cols) }
        }
    }

    /// Whether this matrix carries a transposed copy.
    pub fn is_transposed(&self) -> (t: bool)
        ensures
            t == self.has_transposed_copy(),
    {
        self.transposed
    }

    /// The row-major buffer itself.
    pub fn get_data_vec(&self) -> (buf: &Vec<T>)
        requires
            self.wf(),
        ensures
            is_flat(buf@, row_count(self.entries()), col_count(self.entries())),
            unflatten(buf@, row_count(self.entries()), col_count(self.entries()))
                == self.entries(),
    {
        proof {
            lemma_unflatten(self.data@, self.shape.0 as nat, self.shape.1 as nat);
        }
        &self.data
    }

    /// The second buffer: the transpose, row-major, where the matrix carries
    /// a transposed copy, and zeros where it carries none.
    pub fn get_transposed_data_vec(&self) -> (buf: &Vec<T>)
        requires
            self.wf(),
        ensures
            is_flat(buf@, col_count(self.entries()), row_count(self.entries())),
            self.has_transposed_copy() ==> unflatten(
                buf@,
                col_count(self.entries()),
                row_count(self.entries()),
            ) == transposed(self.entries()),
            !self.has_transposed_copy() ==> forall|p: int|
                0 <= p < buf@.len() ==> #[trigger] buf@[p] == T::spec_zero(),
    {
        proof {
            lemma_unflatten(self.data@, self.shape.0 as nat, self.shape.1 as nat);
        }
        &self.transposed_data
    }

    /// The element in row `row` and column `col`.
    #[inline(always)]
    pub fn get(&self, row: usize, col: usize) -> (x: T)
        requires
            self.wf(),
            row < row_count(self.entries()),
            col < col_count(self.entries()),
        ensures
            x == self.entries()[row as int][col as int],
    {
        proof {
            lemma_unflatten(self.data@, self.shape.0 as nat, self.shape.1 as nat);
        }
        self.data[flat_index(self.shape.0, self.shape.1, row, col)]
    }

    /// The element in row `row` and column `col` of the second buffer: that
    /// is element `(col, row)` of the matrix where it carries a transposed
    /// copy, and zero where it carries none.
    #[inline(always)]
    pub fn get_transposed(&self, row: usize, col: usize) -> (x: T)
        requires
            self.wf(),
            row < col_count(self.entries()),
            col < row_count(self.entries()),
        ensures
            x == if self.has_transposed_copy() {
                self.entries()[col as int][row as int]
            } else {
                T::spec_zero()
            },
    {
        proof {
            lemma_unflatten(self.data@, self.shape.0 as nat, self.shape.1 as nat);
            lemma_unflatten(self.transposed_data@, self.shape.1 as nat, self.shape.0 as nat);
            if self.transposed {
                assert(unflatten(
                    self.transposed_data@,
                    self.shape.1 as nat,
                    self.shape.0 as nat,
                )[row as int][col as int] == transposed(self.entries())[row as int][col as int]);
            }
        }
        self.transposed_data[flat_index(self.shape.1, self.shape.0, row, col)]
    }
}

impl<T: Scalar> Matrix for TransposedViewMatrix<T> {
    type Elem = T;

    closed spec fn wf(&self) -> bool {
        &&& is_flat(self.data@, self.shape.0 as nat, self.shape.1 as nat)
        &&& is_flat(self.transposed_data@, self.shape.1 as nat, self.shape.0 as nat)
        &&& self.transposed ==> unflatten(
            self.transposed_data@,
            self.shape.1 as nat,
            self.shape.0 as nat,
        ) == transposed(unflatten(self.data@, self.shape.0 as nat, self.shape.1 as nat))
        &&& !self.transposed ==> forall|p: int|
            0 <= p < self.transposed_data@.len() ==> #[trigger] self.transposed_data@[p]
                == T::spec_zero()
    }

    closed spec fn entries(&self) -> Rows<T> {
        unflatten(self.data@, self.shape.0 as nat, self.shape.1 as nat)
    }

    open spec fn ready_as_right_operand(&self) -> bool {
        self.has_transposed_copy()
    }

    proof fn lemma_well_shaped(&self) {
        lemma_unflatten(self.data@, self.shape.0 as nat, self.shape.1 as nat);
    }

    fn new(data: Vec<Vec<T>>) -> (r: Result<Self, MatrixError>) {
        match flatten(data) {
            Ok((buf, rows, cols)) => Ok(Self::new_from_vec(buf, rows, cols, true)),
            Err(e) => Err(e),
        }
    }

    fn shape(&self) -> (s: (usize, usize)) {
        proof {
            self.lemma_well_shaped();
        }
        self.shape
    }

    fn num_rows(&self) -> (n: usize) {
        proof {
            self.lemma_well_shaped();
        }
        self.shape.0
    }

    fn num_cols(&self) -> (n: usize) {
        proof {
            self.lemma_well_shaped();
        }
        self.shape.1
    }

    fn get_data(&self) -> (rows: Vec<Vec<T>>) {
        unflatten_rows(&self.data, self.shape.0, self.shape.1)
    }

    fn zeroes(rows: usize, cols: usize) -> (m: Self) {
        let data = zero_buffer::<T>(rows, cols);
        let transposed_data = zero_buffer::<T>(cols, rows);
        proof {
            lemma_zero_buffer::<T>(data@, rows as nat, cols as nat);
            lemma_zero_buffer::<T>(transposed_data@, cols as nat, rows as nat);
            lemma_unflatten(data@, rows as nat, cols as nat);
            assert(unflatten(transposed_data@, cols as nat, rows as nat) =~~= transposed(
                unflatten(data@, rows as nat, cols as nat),
            ));
        }
        Self { data, transposed_data, transposed: true, shape: (rows, cols) }
    }

    fn identity(size: usize) -> (m: Self) {
        let data = identity_buffer::<T>(size);
        proof {
            lemma_identity_buffer::<T>(data@, size as nat);
        }
        Self::new_from_vec(data, size, size, true)
    }

    fn matrix_addition(&self, other: &Self) -> (r: Result<Self, MatrixError>)
        ensures
            same_shape(self.entries(), other.entries()) ==> r is Ok,
            r matches Ok(m) ==> !m.has_transposed_copy(),
    {
        proof {
            self.lemma_well_shaped();
            other.lemma_well_shaped();
        }
        if self.shape.0 != other.shape.0 || self.shape.1 != other.shape.1 {
            return Err(MatrixError::DimensionMismatch);
        }
        let data = elementwise_buffer(
            ElementOp::Plus,
            &self.data,
            &other.data,
            self.shape.0,
            self.shape.1,
        );
        Ok(Self::new_from_vec(data, self.shape.0, self.shape.1, false))
    }

    fn matrix_subtraction(&self, other: &Self) -> (r: Result<Self, MatrixError>)
        ensures
            same_shape(self.entries(), other.entries()) ==> r is Ok,
            r matches Ok(m) ==> !m.has_transposed_copy(),
    {
        proof {
            self.lemma_well_shaped();
            other.lemma_well_shaped();
        }
        if self.shape.0 != other.shape.0 || self.shape.1 != other.shape.1 {
            return Err(MatrixError::DimensionMismatch);
        }
        let data = elementwise_buffer(
            ElementOp::Minus,
            &self.data,
            &other.data,
            self.shape.0,
            self.shape.1,
        );
        Ok(Self::new_from_vec(data, self.shape.0, self.shape.1, false))
    }

    fn matrix_multiplication(&self, other: &Self) -> (r: Result<Self, MatrixError>)
        ensures
            other.has_transposed_copy() && col_count(self.entries()) == row_count(
                other.entries(),
            ) ==> r is Ok,
            r matches Ok(m) ==> !m.has_transposed_copy(),
    {
        proof {
            self.lemma_well_shaped();
            other.lemma_well_shaped();
        }
        if !other.transposed {
            return Err(MatrixError::PreconditionError);
        }
        if self.shape.1 != other.shape.0 {
            return Err(MatrixError::DimensionMismatch);
        }
        let data = product_buffer(
            &self.data,
            self.shape.0,
            self.shape.1,
            &other.transposed_data,
            other.shape.1,
            true,
        );
        proof {
            lemma_transposed_twice(other.entries());
        }
        Ok(Self::new_from_vec(data, self.shape.0, other.shape.1, false))
    }

    fn scalar_multiplication(&self, scalar: T) -> (r: Result<Self, MatrixError>)
        ensures
            r is Ok,
            r matches Ok(m) ==> !m.has_transposed_copy(),
    {
        let data = elementwise_buffer(
            ElementOp::Times(scalar),
            &self.data,
            &self.data,
            self.shape.0,
            self.shape.1,
        );
        Ok(Self::new_from_vec(data, self.shape.0, self.shape.1, false))
    }
}

} // verus!

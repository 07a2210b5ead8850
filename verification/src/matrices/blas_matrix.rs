use vstd::prelude::*;
use crate::elementwise::elementwise_buffer;
use crate::error::MatrixError;
use crate::flat::{
    flat_index, flatten, identity_buffer, is_flat, lemma_identity_buffer, lemma_unflatten,
    lemma_zero_buffer, unflatten_rows, zero_buffer,
};
use crate::model::{
    col_count, identity_matrix, matrix_difference, matrix_scaled, matrix_sum, nested_view,
    row_count, same_shape, unflatten, well_shaped, zero_matrix, Rows,
};
use crate::scalar::{ElementOp, Scalar};

verus! {

/// Storage order that a dense kernel is told to assume.
#[allow(non_camel_case_types)]
#[derive(Debug, Copy, Clone, PartialEq, Eq, Structural)]
pub enum CBLAS_LAYOUT {
    CblasRowMajor,
    CblasColMajor,
}

/// Whether a dense kernel reads an operand as stored, transposed or
/// conjugate-transposed.
#[allow(non_camel_case_types)]
#[derive(Debug, Copy, Clone, PartialEq, Eq, Structural)]
pub enum CBLAS_TRANSPOSE {
    CblasNoTrans,
    CblasTrans,
    CblasConjTrans,
}

impl CBLAS_LAYOUT {
    /// The integer by which the C interface knows this layout.
    pub open spec fn spec_code(self) -> int {
        match self {
            CBLAS_LAYOUT::CblasRowMajor => 101,
            CBLAS_LAYOUT::CblasColMajor => 102,
        }
    }

    pub fn code(self) -> (c: i32)
        ensures
            c == self.spec_code(),
    {
        match self {
            CBLAS_LAYOUT::CblasRowMajor => 101,
            CBLAS_LAYOUT::CblasColMajor => 102,
        }
    }
}

impl CBLAS_TRANSPOSE {
    /// The integer by which the C interface knows this reading.
    pub open spec fn spec_code(self) -> int {
        match self {
            CBLAS_TRANSPOSE::CblasNoTrans => 111,
            CBLAS_TRANSPOSE::CblasTrans => 112,
            CBLAS_TRANSPOSE::CblasConjTrans => 113,
        }
    }

    pub fn code(self) -> (c: i32)
        ensures
            c == self.spec_code(),
    {
        match self {
            CBLAS_TRANSPOSE::CblasNoTrans => 111,
            CBLAS_TRANSPOSE::CblasTrans => 112,
            CBLAS_TRANSPOSE::CblasConjTrans => 113,
        }
    }
}

/// What a general matrix-matrix kernel is told of a product of two
/// row-major matrices that are read as stored: the three extents and the
/// three leading dimensions, as the C interface takes them.
#[derive(Debug, Copy, Clone, PartialEq, Eq, Structural)]
pub struct DgemmCall {
    pub layout: CBLAS_LAYOUT,
    pub transa: CBLAS_TRANSPOSE,
    pub transb: CBLAS_TRANSPOSE,
    pub m: i32,
    pub n: i32,
    pub k: i32,
    pub lda: i32,
    pub ldb: i32,
    pub ldc: i32,
}

/// The kernel-backed representation: one row-major buffer whose products
/// are computed by a dense kernel outside this library. Here stand the
/// buffer, the elementwise operations, what the kernel is told of a
/// product, and the way back from the buffer that it fills.
#[derive(Debug)]
pub struct BlasMatrix<T: Scalar> {
    data: Vec<T>,
    shape: (usize, usize),
}

impl<T: Scalar> BlasMatrix<T> {
    /// The representation's invariant.
    pub closed spec fn wf(&self) -> bool {
        is_flat(self.data@, self.shape.0 as nat, self.shape.1 as nat)
    }

    /// The rows that this matrix stands for.
    pub closed spec fn entries(&self) -> Rows<T> {
        unflatten(self.data@, self.shape.0 as nat, self.shape.1 as nat)
    }

    /// A matrix that meets its invariant has at least one row and one column,
    /// and rows of one length.
    pub proof fn lemma_well_shaped(&self)
        requires
            self.wf(),
        ensures
            well_shaped(self.entries()),
    {
        lemma_unflatten(self.data@, self.shape.0 as nat, self.shape.1 as nat);
    }

    fn new_from_vec(data: Vec<T>, rows: usize, cols: usize) -> (m: Self)
        requires
            is_flat(data@, rows as nat, cols as nat),
        ensures
            m.wf(),
            m.entries() == unflatten(data@, rows as nat, cols as nat),
    {
        Self { data, shape: (rows, cols) }
    }

    /// Takes over a row-major buffer, such as the one a kernel has filled,
    /// as a matrix of `rows` by `cols`, unless one of the two is zero or the
    /// buffer is not `rows * cols` long.
    pub fn from_row_major(data: Vec<T>, rows: usize, cols: usize) -> (r: Result<Self, MatrixError>)
        ensures
            match r {
                Ok(m) => {
                    &&& rows >= 1
                    &&& cols >= 1
                    &&& data@.len() == rows * cols
                    &&& m.wf()
                    &&& m.entries() == unflatten(data@, rows as nat, cols as nat)
                },
                Err(e) => {
                    &&& e == MatrixError::ShapeError
                    &&& (rows == 0 || cols == 0 || data@.len() != rows * cols)
                },
            },
    {
        if rows == 0 || cols == 0 {
            return Err(MatrixError::ShapeError);
        }
        let held = data.len();
        match rows.checked_mul(cols) {
            Some(len) => {
                if held == len {
                    Ok(Self::new_from_vec(data, rows, cols))
                } else {
                    Err(MatrixError::ShapeError)
                }
            },
            None => Err(MatrixError::ShapeError),
        }
    }

    /// The row-major buffer itself.
    pub fn get_data_vec(&self) -> (buf: &Vec<T>)
        requires
            self.wf(),
        ensures
            is_flat(buf@, row_count(self.entries()), col_count(self.entries())),
            unflatten(buf@, row_count(self.entries()), col_count(self.entries()))
                == self.entries(),
    {
        proof {
            lemma_unflatten(self.data@, self.shape.0 as nat, self.shape.1 as nat);
        }
        &self.data
    }

    /// The element in row `row` and column `col`.
    #[inline(always)]
    pub fn get(&self, row: usize, col: usize) -> (x: T)
        requires
            self.wf(),
            row < row_count(self.entries()),
            col < col_count(self.entries()),
        ensures
            x == self.entries()[row as int][col as int],
    {
        proof {
            lemma_unflatten(self.data@, self.shape.0 as nat, self.shape.1 as nat);
        }
        self.data[flat_index(self.shape.0, self.shape.1, row, col)]
    }

    /// What the kernel is told to multiply `self` by `other`: both operands
    /// row-major and read as stored, the extents of the product, and each
    /// operand's column count as its leading dimension. Operands that do not
    /// fit each other are refused, and so are extents beyond what the C
    /// interface can take.
    pub fn dgemm_call(&self, other: &Self) -> (r: Result<DgemmCall, MatrixError>)
        requires
            self.wf(),
            other.wf(),
        ensures
            match r {
                Ok(call) => {
                    &&& col_count(self.entries()) == row_count(other.entries())
                    &&& call.layout == CBLAS_LAYOUT::CblasRowMajor
                    &&& call.transa == CBLAS_TRANSPOSE::CblasNoTrans
                    &&& call.transb == CBLAS_TRANSPOSE::CblasNoTrans
                    &&& call.m == row_count(self.entries())
                    &&& call.n == col_count(other.entries())
                    &&& call.k == col_count(self.entries())
                    &&& call.lda == col_count(self.entries())
                    &&& call.ldb == col_count(other.entries())
                    &&& call.ldc == col_count(other.entries())
                },
                Err(e) => {
                    &&& e == MatrixError::DimensionMismatch
                    &&& (col_count(self.entries()) != row_count(other.entries()) || row_count(
                        self.entries(),
                    ) > i32::MAX || col_count(self.entries()) > i32::MAX || col_count(
                        other.entries(),
                    ) > i32::MAX)
                },
            },
    {
        proof {
            self.lemma_well_shaped();
            other.lemma_well_shaped();
        }
        let limit: usize = 0x7fff_ffff;
        if self.shape.1 != other.shape.0 || self.shape.0 > limit || self.shape.1 > limit
            || other.shape.1 > limit {
            return Err(MatrixError::DimensionMismatch);
        }
        let m = self.shape.0 as i32;
        let n = other.shape.1 as i32;
        let k = self.shape.1 as i32;
        Ok(
            DgemmCall {
                layout: CBLAS_LAYOUT::CblasRowMajor,
                transa: CBLAS_TRANSPOSE::CblasNoTrans,
                transb: CBLAS_TRANSPOSE::CblasNoTrans,
                m,
                n,
                k,
                lda: k,
                ldb: n,
                ldc: n,
            },
        )
    }

    /// Takes over `data` as the rows of a matrix, unless it has no row, no
    /// column, or rows of unequal length.
    pub fn new(data: Vec<Vec<T>>) -> (r: Result<Self, MatrixError>)
        ensures
            match r {
                Ok(m) => {
                    &&& well_shaped(nested_view(data))
                    &&& m.wf()
                    &&& m.entries() == nested_view(data)
                },
                Err(e) => !well_shaped(nested_view(data)) && e == MatrixError::ShapeError,
            },
    {
        match flatten(data) {
            Ok((buf, rows, cols)) => Ok(Self::new_from_vec(buf, rows, cols)),
            Err(e) => Err(e),
        }
    }

    pub fn shape(&self) -> (s: (usize, usize))
        requires
            self.wf(),
        ensures
            s.0 == row_count(self.entries()),
            s.1 == col_count(self.entries()),
    {
        proof {
            self.lemma_well_shaped();
        }
        self.shape
    }

    pub fn num_rows(&self) -> (n: usize)
        requires
            self.wf(),
        ensures
            n == row_count(self.entries()),
    {
        proof {
            self.lemma_well_shaped();
        }
        self.shape.0
    }

    pub fn num_cols(&self) -> (n: usize)
        requires
            self.wf(),
        ensures
            n == col_count(self.entries()),
    {
        proof {
            self.lemma_well_shaped();
        }
        self.shape.1
    }

    /// The rows of this matrix, as a nested vector of its own.
    pub fn get_data(&self) -> (rows: Vec<Vec<T>>)
        requires
            self.wf(),
        ensures
            nested_view(rows) == self.entries(),
    {
        unflatten_rows(&self.data, self.shape.0, self.shape.1)
    }

    pub fn zeroes(rows: usize, cols: usize) -> (m: Self)
        requires
            rows >= 1,
            cols >= 1,
        ensures
            m.wf(),
            m.entries() == zero_matrix::<T>(rows as nat, cols as nat),
    {
        let data = zero_buffer::<T>(rows, cols);
        proof {
            lemma_zero_buffer::<T>(data@, rows as nat, cols as nat);
        }
        Self::new_from_vec(data, rows, cols)
    }

    pub fn identity(size: usize) -> (m: Self)
        requires
            size >= 1,
        ensures
            m.wf(),
            m.entries() == identity_matrix::<T>(size as nat),
    {
        let data = identity_buffer::<T>(size);
        proof {
            lemma_identity_buffer::<T>(data@, size as nat);
        }
        Self::new_from_vec(data, size, size)
    }

    /// The elementwise sum, unless the shapes differ.
    pub fn matrix_addition(&self, other: &Self) -> (r: Result<Self, MatrixError>)
        requires
            self.wf(),
            other.wf(),
        ensures
            match r {
                Ok(m) => {
                    &&& same_shape(self.entries(), other.entries())
                    &&& m.wf()
                    &&& m.entries() == matrix_sum(self.entries(), other.entries())
                },
                Err(e) => {
                    &&& !same_shape(self.entries(), other.entries())
                    &&& e == MatrixError::DimensionMismatch
                },
            },
    {
        proof {
            self.lemma_well_shaped();
            other.lemma_well_shaped();
        }
        if self.shape.0 != other.shape.0 || self.shape.1 != other.shape.1 {
            return Err(MatrixError::DimensionMismatch);
        }
        let data = elementwise_buffer(
            ElementOp::Plus,
            &self.data,
            &other.data,
            self.shape.0,
            self.shape.1,
        );
        Ok(Self::new_from_vec(data, self.shape.0, self.shape.1))
    }

    /// The elementwise difference, unless the shapes differ.
    pub fn matrix_subtraction(&self, other: &Self) -> (r: Result<Self, MatrixError>)
        requires
            self.wf(),
            other.wf(),
        ensures
            match r {
                Ok(m) => {
                    &&& same_shape(self.entries(), other.entries())
                    &&& m.wf()
                    &&& m.entries() == matrix_difference(self.entries(), other.entries())
                },
                Err(e) => {
                    &&& !same_shape(self.entries(), other.entries())
                    &&& e == MatrixError::DimensionMismatch
                },
            },
    {
        proof {
            self.lemma_well_shaped();
            other.lemma_well_shaped();
        }
        if self.shape.0 != other.shape.0 || self.shape.1 != other.shape.1 {
            return Err(MatrixError::DimensionMismatch);
        }
        let data = elementwise_buffer(
            ElementOp::Minus,
            &self.data,
            &other.data,
            self.shape.0,
            self.shape.1,
        );
        Ok(Self::new_from_vec(data, self.shape.0, self.shape.1))
    }

    /// Every element multiplied by `scalar` on the right.
    pub fn scalar_multiplication(&self, scalar: T) -> (m: Self)
        requires
            self.wf(),
        ensures
            m.wf(),
            m.entries() == matrix_scaled(self.entries(), scalar),
    {
        let data = elementwise_buffer(
            ElementOp::Times(scalar),
            &self.data,
            &self.data,
            self.shape.0,
            self.shape.1,
        );
        Self::new_from_vec(data, self.shape.0, self.shape.1)
    }
}

} // verus!

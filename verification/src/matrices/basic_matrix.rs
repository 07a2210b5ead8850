use vstd::prelude::*;
use crate::error::MatrixError;
use crate::model::{
    col_count, dot, identity_matrix, matrix_elementwise, matrix_product, nested_view,
    row_count, same_shape, transposed, zero_matrix, Rows,
};
use crate::scalar::{ElementOp, Scalar};
use crate::Matrix;

verus! {

/// The plain representation: one vector per row, and every operation written
/// as the loops that define it.
#[derive(Debug)]
pub struct BasicMatrix<T: Scalar> {
    data: Vec<Vec<T>>,
    shape: (usize, usize),
}

/// A row of `cols` zeros.
fn zero_row<T: Scalar>(cols: usize) -> (row: Vec<T>)
    ensures
        row@ == Seq::new(cols as nat, |j: int| T::spec_zero()),
{
    let mut row: Vec<T> = Vec::new();
    let mut j: usize = 0;
    while j < cols
        invariant
            j <= cols,
            row@ == Seq::new(j as nat, |c: int| T::spec_zero()),
        decreases cols - j,
    {
        row.push(T::zero());
        j += 1;
        assert(row@ =~= Seq::new(j as nat, |c: int| T::spec_zero()));
    }
    row
}

impl<T: Scalar> BasicMatrix<T> {
    /// What `op` makes of the elements of `self` and `other`, position by
    /// position.
    fn elementwise(&self, op: ElementOp<T>, other: &Self) -> (m: Self)
        requires
            self.wf(),
            other.wf(),
            same_shape(self.entries(), other.entries()),
        ensures
            m.wf(),
            m.entries() == matrix_elementwise(op, self.entries(), other.entries()),
    {
        let rows = self.shape.0;
        let cols = self.shape.1;
        let mut data: Vec<Vec<T>> = Vec::new();
        let mut i: usize = 0;
        while i < rows
            invariant
                self.wf(),
                other.wf(),
                rows == self.shape.0 == other.shape.0,
                cols == self.shape.1 == other.shape.1,
                i <= rows,
                data@.len() == i,
                forall|r: int|
                    0 <= r < i ==> #[trigger] data@[r]@ == Seq::new(
                        cols as nat,
                        |j: int| op.spec_apply(self.data@[r]@[j], other.data@[r]@[j]),
                    ),
            decreases rows - i,
        {
            let mut row: Vec<T> = Vec::new();
            let mut j: usize = 0;
            while j < cols
                invariant
                    self.wf(),
                    other.wf(),
                    rows == self.shape.0 == other.shape.0,
                    cols == self.shape.1 == other.shape.1,
                    i < rows,
                    j <= cols,
                    row@ == Seq::new(
                        j as nat,
                        |c: int| op.spec_apply(self.data@[i as int]@[c], other.data@[i as int]@[c]),
                    ),
                decreases cols - j,
            {
                row.push(op.apply(self.data[i][j], other.data[i][j]));
                j += 1;
                assert(row@ =~= Seq::new(
                    j as nat,
                    |c: int| op.spec_apply(self.data@[i as int]@[c], other.data@[i as int]@[c]),
                ));
            }
            data.push(row);
            i += 1;
        }
        assert(nested_view(data) =~~= matrix_elementwise(op, self.entries(), other.entries()));
        BasicMatrix { data, shape: (rows, cols) }
    }

    /// Turns the matrix into its transpose, in place: the row and column
    /// counts change places and element `(i, j)` moves to `(j, i)`.
    pub fn transpose(&mut self)
        requires
            old(self).wf(),
        ensures
            final(self).wf(),
            final(self).entries() == transposed(old(self).entries()),
    {
        let rows = self.shape.0;
        let cols = self.shape.1;
        let mut flipped: Vec<Vec<T>> = Vec::new();
        let mut j: usize = 0;
        while j < cols
            invariant
                self.wf(),
                rows == self.shape.0,
                cols == self.shape.1,
                j <= cols,
                flipped@.len() == j,
                forall|c: int|
                    0 <= c < j ==> #[trigger] flipped@[c]@ == Seq::new(
                        rows as nat,
                        |i: int| self.data@[i]@[c],
                    ),
            decreases cols - j,
        {
            let mut column: Vec<T> = Vec::new();
            let mut i: usize = 0;
            while i < rows
                invariant
                    self.wf(),
                    rows == self.shape.0,
                    cols == self.shape.1,
                    j < cols,
                    i <= rows,
                    column@ == Seq::new(i as nat, |r: int| self.data@[r]@[j as int]),
                decreases rows - i,
            {
                column.push(self.data[i][j]);
                i += 1;
                assert(column@ =~= Seq::new(i as nat, |r: int| self.data@[r]@[j as int]));
            }
            flipped.push(column);
            j += 1;
        }
        proof {
            assert(nested_view(flipped) =~~= transposed(nested_view(self.data)));
        }
        self.data = flipped;
        self.shape = (cols, rows);
    }
}

impl<T: Scalar> Matrix for BasicMatrix<T> {
    type Elem = T;

    closed spec fn wf(&self) -> bool {
        &&& self.data@.len() == self.shape.0
        &&& self.shape.0 >= 1
        &&& self.shape.1 >= 1
        &&& forall|i: int| 0 <= i < self.data@.len() ==> #[trigger] self.data@[i]@.len() == self.shape.1
    }

    closed spec fn entries(&self) -> Rows<T> {
        nested_view(self.data)
    }

    open spec fn ready_as_right_operand(&self) -> bool {
        true
    }

    proof fn lemma_well_shaped(&self) {
    }

    fn new(data: Vec<Vec<T>>) -> (r: Result<Self, MatrixError>) {
        let rows = data.len();
        if rows == 0 {
            return Err(MatrixError::ShapeError);
        }
        let cols = data[0].len();
        if cols == 0 {
            return Err(MatrixError::ShapeError);
        }
        let mut i: usize = 1;
        while i < rows
            invariant
                rows == data@.len(),
                cols == data@[0]@.len(),
                1 <= i <= rows,
                forall|k: int| 0 <= k < i ==> #[trigger] data@[k]@.len() == cols,
            decreases rows - i,
        {
            if data[i].len() != cols {
                proof {
                    assert(nested_view(data)[i as int].len() != nested_view(data)[0].len());
                }
                return Err(MatrixError::ShapeError);
            }
            i += 1;
        }
        Ok(BasicMatrix { data, shape: (rows, cols) })
    }

    fn shape(&self) -> (s: (usize, usize)) {
        self.shape
    }

    fn num_rows(&self) -> (n: usize) {
        self.shape.0
    }

    fn num_cols(&self) -> (n: usize) {
        self.shape.1
    }

    fn get_data(&self) -> (rows: Vec<Vec<T>>) {
        let mut rows: Vec<Vec<T>> = Vec::new();
        let mut i: usize = 0;
        while i < self.shape.0
            invariant
                self.wf(),
                i <= self.shape.0,
                rows@.len() == i,
                forall|r: int| 0 <= r < i ==> #[trigger] rows@[r]@ == self.data@[r]@,
            decreases self.shape.0 - i,
        {
            let mut row: Vec<T> = Vec::new();
            let mut j: usize = 0;
            while j < self.shape.1
                invariant
                    self.wf(),
                    i < self.shape.0,
                    j <= self.shape.1,
                    row@ == self.data@[i as int]@.take(j as int),
                decreases self.shape.1 - j,
            {
                row.push(self.data[i][j]);
                j += 1;
                assert(row@ =~= self.data@[i as int]@.take(j as int));
            }
            assert(row@ =~= self.data@[i as int]@);
            rows.push(row);
            i += 1;
        }
        assert(nested_view(rows) =~~= self.entries());
        rows
    }

    fn zeroes(rows: usize, cols: usize) -> (m: Self) {
        let mut data: Vec<Vec<T>> = Vec::new();
        let mut i: usize = 0;
        while i < rows
            invariant
                i <= rows,
                data@.len() == i,
                forall|r: int|
                    0 <= r < i ==> #[trigger] data@[r]@ == Seq::new(
                        cols as nat,
                        |j: int| T::spec_zero(),
                    ),
            decreases rows - i,
        {
            data.push(zero_row(cols));
            i += 1;
        }
        assert(nested_view(data) =~~= zero_matrix::<T>(rows as nat, cols as nat));
        BasicMatrix { data, shape: (rows, cols) }
    }

    fn identity(size: usize) -> (m: Self) {
        let mut data: Vec<Vec<T>> = Vec::new();
        let mut i: usize = 0;
        while i < size
            invariant
                i <= size,
                data@.len() == i,
                forall|r: int|
                    0 <= r < i ==> #[trigger] data@[r]@ == Seq::new(
                        size as nat,
                        |j: int| if r == j { T::spec_one() } else { T::spec_zero() },
                    ),
            decreases size - i,
        {
            let mut row = zero_row::<T>(size);
            row.set(i, T::one());
            assert(row@ =~= Seq::new(
                size as nat,
                |j: int| if i as int == j { T::spec_one() } else { T::spec_zero() },
            ));
            data.push(row);
            i += 1;
        }
        assert(nested_view(data) =~~= identity_matrix::<T>(size as nat));
        BasicMatrix { data, shape: (size, size) }
    }

    fn matrix_addition(&self, other: &Self) -> (r: Result<Self, MatrixError>)
        ensures
            same_shape(self.entries(), other.entries()) ==> r is Ok,
    {
        if self.shape.0 != other.shape.0 || self.shape.1 != other.shape.1 {
            return Err(MatrixError::DimensionMismatch);
        }
        Ok(self.elementwise(ElementOp::Plus, other))
    }

    fn matrix_subtraction(&self, other: &Self) -> (r: Result<Self, MatrixError>)
        ensures
            same_shape(self.entries(), other.entries()) ==> r is Ok,
    {
        if self.shape.0 != other.shape.0 || self.shape.1 != other.shape.1 {
            return Err(MatrixError::DimensionMismatch);
        }
        Ok(self.elementwise(ElementOp::Minus, other))
    }

    fn matrix_multiplication(&self, other: &Self) -> (r: Result<Self, MatrixError>)
        ensures
            col_count(self.entries()) == row_count(other.entries()) ==> r is Ok,
    {
        if self.shape.1 != other.shape.0 {
            return Err(MatrixError::DimensionMismatch);
        }
        let rows = self.shape.0;
        let inner = self.shape.1;
        let cols = other.shape.1;
        let ghost a = self.entries();
        let ghost b = other.entries();
        let mut data: Vec<Vec<T>> = Vec::new();
        let mut i: usize = 0;
        while i < rows
            invariant
                self.wf(),
                other.wf(),
                a == self.entries(),
                b == other.entries(),
                rows == self.shape.0,
                inner == self.shape.1 == other.shape.0,
                cols == other.shape.1,
                i <= rows,
                data@.len() == i,
                forall|r: int|
                    0 <= r < i ==> #[trigger] data@[r]@ == Seq::new(
                        cols as nat,
                        |j: int| dot(a, b, r, j, inner as nat),
                    ),
            decreases rows - i,
        {
            let mut row: Vec<T> = Vec::new();
            let mut j: usize = 0;
            while j < cols
                invariant
                    self.wf(),
                    other.wf(),
                    a == self.entries(),
                    b == other.entries(),
                    rows == self.shape.0,
                    inner == self.shape.1 == other.shape.0,
                    cols == other.shape.1,
                    i < rows,
                    j <= cols,
                    row@ == Seq::new(j as nat, |c: int| dot(a, b, i as int, c, inner as nat)),
                decreases cols - j,
            {
                let mut acc = T::zero();
                let mut k: usize = 0;
                while k < inner
                    invariant
                        self.wf(),
                        other.wf(),
                        a == self.entries(),
                        b == other.entries(),
                        rows == self.shape.0,
                        inner == self.shape.1 == other.shape.0,
                        cols == other.shape.1,
                        i < rows,
                        j < cols,
                        k <= inner,
                        acc == dot(a, b, i as int, j as int, k as nat),
                    decreases inner - k,
                {
                    acc = acc.plus(self.data[i][k].times(other.data[k][j]));
                    k += 1;
                }
                row.push(acc);
                j += 1;
                assert(row@ =~= Seq::new(
                    j as nat,
                    |c: int| dot(a, b, i as int, c, inner as nat),
                ));
            }
            data.push(row);
            i += 1;
        }
        assert(nested_view(data) =~~= matrix_product(a, b));
        Ok(BasicMatrix { data, shape: (rows, cols) })
    }

    fn scalar_multiplication(&self, scalar: T) -> (r: Result<Self, MatrixError>)
        ensures
            r is Ok,
    {
        Ok(self.elementwise(ElementOp::Times(scalar), self))
    }
}

} // verus!

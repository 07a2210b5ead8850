use vstd::prelude::*;
use crate::scalar::{ElementOp, Scalar};

verus! {

/// A matrix as mathematics sees it: a sequence of rows.
pub type Rows<T> = Seq<Seq<T>>;

/// The rows held by a nested vector.
pub open spec fn nested_view<T>(data: Vec<Vec<T>>) -> Rows<T> {
    Seq::new(data@.len(), |i: int| data@[i]@)
}

/// At least one row, at least one column, and every row as long as the first.
pub open spec fn well_shaped<T>(m: Rows<T>) -> bool {
    &&& m.len() >= 1
    &&& m[0].len() >= 1
    &&& forall|i: int| 0 <= i < m.len() ==> #[trigger] m[i].len() == m[0].len()
}

pub open spec fn row_count<T>(m: Rows<T>) -> nat {
    m.len()
}

pub open spec fn col_count<T>(m: Rows<T>) -> nat {
    m[0].len()
}

pub open spec fn same_shape<T>(a: Rows<T>, b: Rows<T>) -> bool {
    row_count(a) == row_count(b) && col_count(a) == col_count(b)
}

/// The rows that a row-major buffer of `rows * cols` elements stands for.
pub open spec fn unflatten<T>(buf: Seq<T>, rows: nat, cols: nat) -> Rows<T> {
    Seq::new(rows, |i: int| Seq::new(cols, |j: int| buf[i * cols + j]))
}

pub open spec fn zero_matrix<T: Scalar>(rows: nat, cols: nat) -> Rows<T> {
    Seq::new(rows, |i: int| Seq::new(cols, |j: int| T::spec_zero()))
}

pub open spec fn identity_matrix<T: Scalar>(size: nat) -> Rows<T> {
    Seq::new(
        size,
        |i: int| Seq::new(size, |j: int| if i == j { T::spec_one() } else { T::spec_zero() }),
    )
}

/// The matrix of the shape of `a` whose every element is what `op` makes of
/// the elements of `a` and `b` at its position.
pub open spec fn matrix_elementwise<T: Scalar>(op: ElementOp<T>, a: Rows<T>, b: Rows<T>) -> Rows<T> {
    Seq::new(
        row_count(a),
        |i: int| Seq::new(col_count(a), |j: int| op.spec_apply(a[i][j], b[i][j])),
    )
}

pub open spec fn matrix_sum<T: Scalar>(a: Rows<T>, b: Rows<T>) -> Rows<T> {
    matrix_elementwise(ElementOp::Plus, a, b)
}

pub open spec fn matrix_difference<T: Scalar>(a: Rows<T>, b: Rows<T>) -> Rows<T> {
    matrix_elementwise(ElementOp::Minus, a, b)
}

pub open spec fn matrix_scaled<T: Scalar>(a: Rows<T>, scalar: T) -> Rows<T> {
    matrix_elementwise(ElementOp::Times(scalar), a, a)
}

/// The first `k` terms of the inner product of row `i` of `a` with column `j`
/// of `b`, added to zero one after the other in ascending order.
pub open spec fn dot<T: Scalar>(a: Rows<T>, b: Rows<T>, i: int, j: int, k: nat) -> T
    decreases k,
{
    if k == 0 {
        T::spec_zero()
    } else {
        dot(a, b, i, j, (k - 1) as nat).spec_plus(a[i][k - 1].spec_times(b[k - 1][j]))
    }
}

pub open spec fn matrix_product<T: Scalar>(a: Rows<T>, b: Rows<T>) -> Rows<T> {
    Seq::new(
        row_count(a),
        |i: int| Seq::new(col_count(b), |j: int| dot(a, b, i, j, row_count(b))),
    )
}

pub open spec fn transposed<T>(m: Rows<T>) -> Rows<T> {
    Seq::new(col_count(m), |j: int| Seq::new(row_count(m), |i: int| m[i][j]))
}

} // verus!

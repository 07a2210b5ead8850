use vstd::prelude::*;
use crate::error::MatrixError;
use crate::matrices::blocked_matrix::BlockedMatrix;
use crate::model::{
    col_count, dot, identity_matrix, matrix_product, nested_view, row_count, well_shaped, Rows,
};
use crate::scalar::{has_ring_identities, lemma_i64_has_ring_identities, Scalar};
use crate::Matrix;

verus! {

/// Shape invariant: the rows that a matrix hands out are as many as its row
/// count, each as long as its column count, and neither count is zero.
pub proof fn lemma_shape_invariant<M: Matrix>(m: M, rows: Vec<Vec<M::Elem>>)
    requires
        m.wf(),
        nested_view(rows) == m.entries(),
    ensures
        rows@.len() == row_count(m.entries()) >= 1,
        col_count(m.entries()) >= 1,
        forall|i: int| 0 <= i < rows@.len() ==> (#[trigger] rows@[i])@.len() == col_count(m.entries()),
{
    m.lemma_well_shaped();
    assert forall|i: int| 0 <= i < rows@.len() implies (#[trigger] rows@[i])@.len() == col_count(
        m.entries(),
    ) by {
        assert(nested_view(rows)[i] == rows@[i]@);
    }
}

/// Whether element `(i, j)` of `m` behaves towards zero and one as the
/// identity law needs it: one leaves it as it is, zero added on the left
/// does too, and, where the matrix has other columns, zero absorbs it and,
/// unless the element stands in the last column, zero added on the right
/// leaves it as it is.
pub open spec fn entry_obeys_identities<T: Scalar>(m: Rows<T>, i: int, j: int) -> bool {
    &&& m[i][j].spec_times(T::spec_one()) == m[i][j]
    &&& T::spec_zero().spec_plus(m[i][j]) == m[i][j]
    &&& col_count(m) >= 2 ==> m[i][j].spec_times(T::spec_zero()) == T::spec_zero()
    &&& j + 1 < col_count(m) ==> m[i][j].spec_plus(T::spec_zero()) == m[i][j]
}

/// The matrices that the identity law speaks of: those whose every element
/// behaves towards zero and one as the law needs it. Nothing is asked of
/// values that do not occur in the matrix.
pub open spec fn obeys_identities<T: Scalar>(m: Rows<T>) -> bool {
    &&& col_count(m) >= 2 ==> T::spec_zero().spec_plus(T::spec_zero()) == T::spec_zero()
    &&& forall|i: int, j: int|
        0 <= i < row_count(m) && 0 <= j < col_count(m) ==> #[trigger] entry_obeys_identities(
            m,
            i,
            j,
        )
}

/// Where the element type obeys the ring identities, every matrix does.
pub proof fn lemma_ring_obeys_identities<T: Scalar>(m: Rows<T>)
    requires
        has_ring_identities::<T>(),
    ensures
        obeys_identities(m),
{
}

/// In the product with an identity matrix, the accumulation of element
/// `(i, j)` stays at zero until term `j` brings in the element itself, and
/// stays there.
proof fn lemma_dot_with_identity<T: Scalar>(m: Rows<T>, i: int, j: int, k: nat)
    requires
        well_shaped(m),
        obeys_identities(m),
        0 <= i < row_count(m),
        0 <= j < col_count(m),
        k <= col_count(m),
    ensures
        dot(m, identity_matrix::<T>(col_count(m)), i, j, k) == if k <= j {
            T::spec_zero()
        } else {
            m[i][j]
        },
    decreases k,
{
    if k > 0 {
        lemma_dot_with_identity(m, i, j, (k - 1) as nat);
        let unit = identity_matrix::<T>(col_count(m));
        assert(m[i].len() == col_count(m));
        assert(entry_obeys_identities(m, i, k - 1));
        assert(entry_obeys_identities(m, i, j));
        if k - 1 == j {
            assert(unit[k - 1][j] == T::spec_one());
        } else {
            assert(unit[k - 1][j] == T::spec_zero());
        }
    }
}

/// Identity law: multiplied on the right by the identity matrix of its
/// column count, a matrix is unchanged, provided its elements behave towards
/// zero and one as elements of a ring do.
pub proof fn lemma_identity_law<T: Scalar>(m: Rows<T>)
    requires
        well_shaped(m),
        obeys_identities(m),
    ensures
        matrix_product(m, identity_matrix::<T>(col_count(m))) == m,
{
    let unit = identity_matrix::<T>(col_count(m));
    assert forall|i: int, j: int| 0 <= i < row_count(m) && 0 <= j < col_count(m) implies dot(
        m,
        unit,
        i,
        j,
        col_count(m),
    ) == #[trigger] m[i][j] by {
        lemma_dot_with_identity(m, i, j, col_count(m));
    }
    assert(matrix_product(m, unit) =~~= m);
}

/// Identity law for wrapping integers: it holds of every matrix.
pub proof fn lemma_identity_law_i64(m: Rows<i64>)
    requires
        well_shaped(m),
    ensures
        matrix_product(m, identity_matrix::<i64>(col_count(m))) == m,
{
    lemma_i64_has_ring_identities();
    lemma_ring_obeys_identities(m);
    lemma_identity_law(m);
}

/// Identity law, for a representation: whatever `identity` and
/// `matrix_multiplication` hand back for a matrix and the identity of its
/// column count stands for the rows of the matrix itself.
pub proof fn lemma_identity_law_holds<M: Matrix>(m: M, unit: M, product: M)
    requires
        m.wf(),
        obeys_identities(m.entries()),
        call_ensures(M::identity, (col_count(m.entries()) as usize,), unit),
        col_count(m.entries()) <= usize::MAX,
        call_ensures(M::matrix_multiplication, (&m, &unit), Ok(product)),
    ensures
        product.entries() == m.entries(),
{
    m.lemma_well_shaped();
    lemma_identity_law(m.entries());
}

/// Cross-representation equivalence: two representations that are given the
/// same operands return the same sum, difference, product and scaled matrix,
/// wherever both return one.
pub proof fn lemma_representations_agree<A: Matrix, B: Matrix<Elem = A::Elem>>(
    a1: A,
    a2: A,
    b1: B,
    b2: B,
    scalar: A::Elem,
    ra: A,
    rb: B,
)
    requires
        a1.entries() == b1.entries(),
        a2.entries() == b2.entries(),
    ensures
        call_ensures(A::matrix_addition, (&a1, &a2), Ok(ra)) && call_ensures(
            B::matrix_addition,
            (&b1, &b2),
            Ok(rb),
        ) ==> ra.entries() == rb.entries(),
        call_ensures(A::matrix_subtraction, (&a1, &a2), Ok(ra)) && call_ensures(
            B::matrix_subtraction,
            (&b1, &b2),
            Ok(rb),
        ) ==> ra.entries() == rb.entries(),
        call_ensures(A::matrix_multiplication, (&a1, &a2), Ok(ra)) && call_ensures(
            B::matrix_multiplication,
            (&b1, &b2),
            Ok(rb),
        ) ==> ra.entries() == rb.entries(),
        call_ensures(A::scalar_multiplication, (&a1, scalar), Ok(ra)) && call_ensures(
            B::scalar_multiplication,
            (&b1, scalar),
            Ok(rb),
        ) ==> ra.entries() == rb.entries(),
{
}

/// Block-size independence: whatever two block sizes a blocked
/// multiplication is run with, it succeeds or fails alike, and where it
/// succeeds the two results stand for the same rows.
pub proof fn lemma_block_size_independence<T: Scalar>(
    a: BlockedMatrix<T>,
    b: BlockedMatrix<T>,
    block1: usize,
    block2: usize,
    r1: Result<BlockedMatrix<T>, MatrixError>,
    r2: Result<BlockedMatrix<T>, MatrixError>,
)
    requires
        call_ensures(
            BlockedMatrix::<T>::matrix_multiplication_with_block_size,
            (&a, &b, block1),
            r1,
        ),
        call_ensures(
            BlockedMatrix::<T>::matrix_multiplication_with_block_size,
            (&a, &b, block2),
            r2,
        ),
    ensures
        r1 is Ok <==> r2 is Ok,
        r1 is Err ==> r1 == r2,
        r1 matches Ok(m1) ==> r2 matches Ok(m2) && m1.entries() == m2.entries(),
{
}

} // verus!

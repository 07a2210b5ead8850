use vstd::prelude::*;
use crate::error::MatrixError;
use crate::model::{
    dot, identity_matrix, matrix_product, nested_view, transposed, unflatten, well_shaped,
    zero_matrix, Rows,
};
use crate::scalar::Scalar;

verus! {

/// A row-major buffer for a matrix of `rows` by `cols` elements, neither zero.
pub open spec fn is_flat<T>(buf: Seq<T>, rows: nat, cols: nat) -> bool {
    rows >= 1 && cols >= 1 && buf.len() == rows * cols && rows * cols <= usize::MAX
}

/// A vector is never longer than the machine can index.
pub proof fn lemma_len_fits<T>(v: &Vec<T>)
    ensures
        v@.len() <= usize::MAX,
{
    assert(v.len() == v@.len());
}

/// Where element `(row, col)` of a matrix with `cols` columns lies in its buffer.
pub(crate) fn flat_index(rows: usize, cols: usize, row: usize, col: usize) -> (p: usize)
    requires
        rows * cols <= usize::MAX,
        row < rows,
        col < cols,
    ensures
        p == row * cols + col,
        p < rows * cols,
{
    proof {
        lemma_flat_index(row as int, col as int, rows as int, cols as int);
    }
    row * cols + col
}

/// Position `(i, j)` of a matrix with `cols` columns lies inside the buffer,
/// and no other position of the matrix shares its index.
pub proof fn lemma_flat_index(i: int, j: int, rows: int, cols: int)
    requires
        0 <= i < rows,
        0 <= j < cols,
    ensures
        0 <= i * cols <= i * cols + j < (i + 1) * cols <= rows * cols,
        (i * cols + j) / cols == i,
        (i * cols + j) % cols == j,
{
    assert(0 <= i * cols) by (nonlinear_arith)
        requires
            0 <= i,
            0 < cols,
    ;
    assert((i + 1) * cols == i * cols + cols) by (nonlinear_arith);
    assert((i + 1) * cols <= rows * cols) by (nonlinear_arith)
        requires
            i + 1 <= rows,
            0 < cols,
    ;
    vstd::arithmetic::div_mod::lemma_fundamental_div_mod_converse(i * cols + j, cols, i, j);
}

/// The rows that a flat buffer stands for are well shaped, and element
/// `(i, j)` of them is the buffer's element `i * cols + j`.
pub proof fn lemma_unflatten<T>(buf: Seq<T>, rows: nat, cols: nat)
    requires
        is_flat(buf, rows, cols),
    ensures
        well_shaped(unflatten(buf, rows, cols)),
        unflatten(buf, rows, cols).len() == rows,
        unflatten(buf, rows, cols)[0].len() == cols,
        forall|i: int, j: int|
            0 <= i < rows && 0 <= j < cols ==> #[trigger] unflatten(buf, rows, cols)[i][j]
                == buf[i * cols + j],
{
}

/// Checks that `data` has a row, a column and rows of one length, and lays
/// its elements out row after row.
pub(crate) fn flatten<T: Scalar>(data: Vec<Vec<T>>) -> (r: Result<(Vec<T>, usize, usize), MatrixError>)
    ensures
        match r {
            Ok((buf, rows, cols)) => {
                &&& well_shaped(nested_view(data))
                &&& is_flat(buf@, rows as nat, cols as nat)
                &&& unflatten(buf@, rows as nat, cols as nat) == nested_view(data)
            },
            Err(e) => !well_shaped(nested_view(data)) && e == MatrixError::ShapeError,
        },
{
    let rows = data.len();
    if rows == 0 {
        return Err(MatrixError::ShapeError);
    }
    let cols = data[0].len();
    if cols == 0 {
        return Err(MatrixError::ShapeError);
    }
    let mut buf: Vec<T> = Vec::new();
    let mut i: usize = 0;
    while i < rows
        invariant
            rows == data@.len(),
            cols == data@[0]@.len(),
            cols >= 1,
            i <= rows,
            buf@.len() == i * cols,
            forall|r: int| 0 <= r < i ==> #[trigger] data@[r]@.len() == cols,
            forall|r: int, c: int|
                0 <= r < i && 0 <= c < cols ==> buf@[r * cols + c] == #[trigger] data@[r]@[c],
        decreases rows - i,
    {
        if data[i].len() != cols {
            proof {
                assert(nested_view(data)[i as int].len() != nested_view(data)[0].len());
            }
            return Err(MatrixError::ShapeError);
        }
        let mut j: usize = 0;
        while j < cols
            invariant
                rows == data@.len(),
                cols == data@[0]@.len(),
                cols >= 1,
                i < rows,
                j <= cols,
                data@[i as int]@.len() == cols,
                buf@.len() == i * cols + j,
                forall|r: int| 0 <= r < i ==> #[trigger] data@[r]@.len() == cols,
                forall|r: int, c: int|
                    0 <= r < i && 0 <= c < cols ==> buf@[r * cols + c] == #[trigger] data@[r]@[c],
                forall|c: int| 0 <= c < j ==> buf@[i * cols + c] == #[trigger] data@[i as int]@[c],
            decreases cols - j,
        {
            let ghost before = buf@;
            buf.push(data[i][j]);
            proof {
                assert forall|r: int, c: int| 0 <= r < i && 0 <= c < cols implies buf@[r * cols
                    + c] == #[trigger] data@[r]@[c] by {
                    lemma_flat_index(r, c, i as int, cols as int);
                    assert(buf@[r * cols + c] == before[r * cols + c]);
                }
            }
            j += 1;
        }
        proof {
            assert((i + 1) * cols == i * cols + cols) by (nonlinear_arith);
        }
        i += 1;
    }
    proof {
        lemma_len_fits(&buf);
        lemma_unflatten(buf@, rows as nat, cols as nat);
        assert(unflatten(buf@, rows as nat, cols as nat) =~~= nested_view(data));
    }
    Ok((buf, rows, cols))
}

/// The rows of a flat buffer, each as a vector of its own.
pub(crate) fn unflatten_rows<T: Scalar>(buf: &Vec<T>, rows: usize, cols: usize) -> (out: Vec<Vec<T>>)
    requires
        is_flat(buf@, rows as nat, cols as nat),
    ensures
        nested_view(out) == unflatten(buf@, rows as nat, cols as nat),
{
    let mut out: Vec<Vec<T>> = Vec::new();
    let mut i: usize = 0;
    while i < rows
        invariant
            is_flat(buf@, rows as nat, cols as nat),
            i <= rows,
            out@.len() == i,
            forall|r: int|
                0 <= r < i ==> #[trigger] out@[r]@ == Seq::new(
                    cols as nat,
                    |c: int| buf@[r * cols + c],
                ),
        decreases rows - i,
    {
        let mut row: Vec<T> = Vec::new();
        let mut j: usize = 0;
        while j < cols
            invariant
                is_flat(buf@, rows as nat, cols as nat),
                i < rows,
                j <= cols,
                row@ == Seq::new(j as nat, |c: int| buf@[i * cols + c]),
            decreases cols - j,
        {
            row.push(buf[flat_index(rows, cols, i, j)]);
            j += 1;
            assert(row@ =~= Seq::new(j as nat, |c: int| buf@[i * cols + c]));
        }
        out.push(row);
        i += 1;
    }
    assert(nested_view(out) =~~= unflatten(buf@, rows as nat, cols as nat));
    out
}

/// A buffer of `rows * cols` zeros.
pub(crate) fn zero_buffer<T: Scalar>(rows: usize, cols: usize) -> (buf: Vec<T>)
    requires
        rows >= 1,
        cols >= 1,
    ensures
        is_flat(buf@, rows as nat, cols as nat),
        forall|p: int| 0 <= p < buf@.len() ==> #[trigger] buf@[p] == T::spec_zero(),
{
    let mut buf: Vec<T> = Vec::new();
    let mut i: usize = 0;
    while i < rows
        invariant
            i <= rows,
            buf@.len() == i * cols,
            forall|p: int| 0 <= p < buf@.len() ==> #[trigger] buf@[p] == T::spec_zero(),
        decreases rows - i,
    {
        let mut j: usize = 0;
        while j < cols
            invariant
                i < rows,
                j <= cols,
                buf@.len() == i * cols + j,
                forall|p: int| 0 <= p < buf@.len() ==> #[trigger] buf@[p] == T::spec_zero(),
            decreases cols - j,
        {
            buf.push(T::zero());
            j += 1;
        }
        proof {
            assert((i + 1) * cols == i * cols + cols) by (nonlinear_arith);
        }
        i += 1;
    }
    proof {
        lemma_len_fits(&buf);
    }
    buf
}

/// The buffer of the identity matrix of the given size.
pub(crate) fn identity_buffer<T: Scalar>(size: usize) -> (buf: Vec<T>)
    requires
        size >= 1,
    ensures
        is_flat(buf@, size as nat, size as nat),
        forall|i: int, j: int|
            0 <= i < size && 0 <= j < size ==> #[trigger] buf@[i * size + j] == (if i == j {
                T::spec_one()
            } else {
                T::spec_zero()
            }),
{
    let mut buf = zero_buffer::<T>(size, size);
    proof {
        assert forall|r: int, c: int| 0 <= r < size && 0 <= c < size implies #[trigger] buf@[r
            * size + c] == T::spec_zero() by {
            lemma_flat_index(r, c, size as int, size as int);
        }
    }
    let mut i: usize = 0;
    while i < size
        invariant
            i <= size,
            is_flat(buf@, size as nat, size as nat),
            forall|r: int, c: int|
                0 <= r < size && 0 <= c < size ==> #[trigger] buf@[r * size + c] == (if r == c
                    && r < i {
                    T::spec_one()
                } else {
                    T::spec_zero()
                }),
        decreases size - i,
    {
        let ghost before = buf@;
        buf.set(flat_index(size, size, i, i), T::one());
        proof {
            assert forall|r: int, c: int| 0 <= r < size && 0 <= c < size implies #[trigger] buf@[r
                * size + c] == (if r == c && r < i + 1 {
                T::spec_one()
            } else {
                T::spec_zero()
            }) by {
                lemma_flat_index(r, c, size as int, size as int);
                lemma_flat_index(i as int, i as int, size as int, size as int);
                assert(before[r * size + c] == (if r == c && r < i {
                    T::spec_one()
                } else {
                    T::spec_zero()
                }));
            }
        }
        i += 1;
    }
    buf
}

/// A buffer of zeros stands for the zero matrix.
pub proof fn lemma_zero_buffer<T: Scalar>(buf: Seq<T>, rows: nat, cols: nat)
    requires
        is_flat(buf, rows, cols),
        forall|p: int| 0 <= p < buf.len() ==> #[trigger] buf[p] == T::spec_zero(),
    ensures
        unflatten(buf, rows, cols) == zero_matrix::<T>(rows, cols),
{
    assert forall|i: int, j: int| 0 <= i < rows && 0 <= j < cols implies #[trigger] unflatten(
        buf,
        rows,
        cols,
    )[i][j] == T::spec_zero() by {
        lemma_flat_index(i, j, rows as int, cols as int);
    }
    assert(unflatten(buf, rows, cols) =~~= zero_matrix::<T>(rows, cols));
}

/// A buffer with ones at the diagonal positions and zeros elsewhere stands
/// for the identity matrix.
pub proof fn lemma_identity_buffer<T: Scalar>(buf: Seq<T>, size: nat)
    requires
        is_flat(buf, size, size),
        forall|i: int, j: int|
            0 <= i < size && 0 <= j < size ==> #[trigger] buf[i * size + j] == (if i == j {
                T::spec_one()
            } else {
                T::spec_zero()
            }),
    ensures
        unflatten(buf, size, size) == identity_matrix::<T>(size),
{
    assert(unflatten(buf, size, size) =~~= identity_matrix::<T>(size));
}

/// The buffer of the transpose: element `(j, i)` of it is element `(i, j)`
/// of the matrix in `data`.
pub(crate) fn transposed_buffer<T: Scalar>(data: &Vec<T>, rows: usize, cols: usize) -> (out: Vec<T>)
    requires
        is_flat(data@, rows as nat, cols as nat),
    ensures
        is_flat(out@, cols as nat, rows as nat),
        unflatten(out@, cols as nat, rows as nat) == transposed(
            unflatten(data@, rows as nat, cols as nat),
        ),
{
    let mut out: Vec<T> = Vec::new();
    let mut j: usize = 0;
    while j < cols
        invariant
            is_flat(data@, rows as nat, cols as nat),
            j <= cols,
            out@.len() == j * rows,
            forall|c: int, r: int|
                0 <= c < j && 0 <= r < rows ==> #[trigger] out@[c * rows + r] == data@[r * cols
                    + c],
        decreases cols - j,
    {
        let mut i: usize = 0;
        while i < rows
            invariant
                is_flat(data@, rows as nat, cols as nat),
                j < cols,
                i <= rows,
                out@.len() == j * rows + i,
                forall|c: int, r: int|
                    0 <= c < j && 0 <= r < rows ==> #[trigger] out@[c * rows + r] == data@[r
                        * cols + c],
                forall|r: int| 0 <= r < i ==> #[trigger] out@[j * rows + r] == data@[r * cols + j],
            decreases rows - i,
        {
            let ghost before = out@;
            out.push(data[flat_index(rows, cols, i, j)]);
            proof {
                assert forall|c: int, r: int| 0 <= c < j && 0 <= r < rows implies #[trigger] out@[c
                    * rows + r] == data@[r * cols + c] by {
                    lemma_flat_index(c, r, j as int, rows as int);
                    assert(out@[c * rows + r] == before[c * rows + r]);
                }
                assert forall|r: int| 0 <= r < i + 1 implies #[trigger] out@[j * rows + r]
                    == data@[r * cols + j] by {
                    if r < i {
                        assert(out@[j * rows + r] == before[j * rows + r]);
                    }
                }
            }
            i += 1;
        }
        proof {
            assert((j + 1) * rows == j * rows + rows) by (nonlinear_arith);
            assert forall|c: int, r: int| 0 <= c < j + 1 && 0 <= r < rows implies #[trigger] out@[c
                * rows + r] == data@[r * cols + c] by {
                if c == j {
                    assert(out@[j * rows + r] == data@[r * cols + j]);
                }
            }
        }
        j += 1;
    }
    proof {
        lemma_len_fits(&out);
        assert(cols * rows == rows * cols) by (nonlinear_arith);
        lemma_unflatten(out@, cols as nat, rows as nat);
        lemma_unflatten(data@, rows as nat, cols as nat);
        assert(unflatten(out@, cols as nat, rows as nat) =~~= transposed(
            unflatten(data@, rows as nat, cols as nat),
        ));
    }
    out
}

/// Transposing a well-shaped matrix twice gives it back.
pub proof fn lemma_transposed_twice<T>(m: Seq<Seq<T>>)
    requires
        well_shaped(m),
    ensures
        well_shaped(transposed(m)),
        transposed(transposed(m)) == m,
{
    assert(transposed(transposed(m)) =~~= m);
}

/// The right operand that the buffer `b` stands for in a product with
/// `inner` terms and `cols` columns: the matrix that `b` holds row-major, or,
/// where `b` is a transposed copy, the matrix whose transpose it holds.
pub open spec fn right_operand<T>(b: Seq<T>, inner: nat, cols: nat, transposed_copy: bool) -> Rows<T> {
    if transposed_copy {
        transposed(unflatten(b, cols, inner))
    } else {
        unflatten(b, inner, cols)
    }
}

/// The product of two flat matrices by the defining triple loop: element
/// `(i, j)` starts at zero and takes up the terms in ascending order of `k`.
/// Where `b` is a transposed copy, the right operand is read along the rows
/// of the copy; the terms and their order are the same.
pub(crate) fn product_buffer<T: Scalar>(
    a: &Vec<T>,
    rows: usize,
    inner: usize,
    b: &Vec<T>,
    cols: usize,
    transposed_copy: bool,
) -> (out: Vec<T>)
    requires
        is_flat(a@, rows as nat, inner as nat),
        if transposed_copy {
            is_flat(b@, cols as nat, inner as nat)
        } else {
            is_flat(b@, inner as nat, cols as nat)
        },
    ensures
        is_flat(out@, rows as nat, cols as nat),
        unflatten(out@, rows as nat, cols as nat) == matrix_product(
            unflatten(a@, rows as nat, inner as nat),
            right_operand(b@, inner as nat, cols as nat, transposed_copy),
        ),
{
    let ghost ar = unflatten(a@, rows as nat, inner as nat);
    let ghost br = right_operand(b@, inner as nat, cols as nat, transposed_copy);
    proof {
        lemma_unflatten(a@, rows as nat, inner as nat);
    }
    let mut out: Vec<T> = Vec::new();
    let mut i: usize = 0;
    while i < rows
        invariant
            is_flat(a@, rows as nat, inner as nat),
            if transposed_copy {
                is_flat(b@, cols as nat, inner as nat)
            } else {
                is_flat(b@, inner as nat, cols as nat)
            },
            ar == unflatten(a@, rows as nat, inner as nat),
            br == right_operand(b@, inner as nat, cols as nat, transposed_copy),
            i <= rows,
            out@.len() == i * cols,
            forall|r: int, c: int|
                0 <= r < i && 0 <= c < cols ==> #[trigger] out@[r * cols + c] == dot(
                    ar,
                    br,
                    r,
                    c,
                    inner as nat,
                ),
        decreases rows - i,
    {
        let mut j: usize = 0;
        while j < cols
            invariant
                is_flat(a@, rows as nat, inner as nat),
                if transposed_copy {
                is_flat(b@, cols as nat, inner as nat)
            } else {
                is_flat(b@, inner as nat, cols as nat)
            },
                ar == unflatten(a@, rows as nat, inner as nat),
                br == right_operand(b@, inner as nat, cols as nat, transposed_copy),
                i < rows,
                j <= cols,
                out@.len() == i * cols + j,
                forall|r: int, c: int|
                    0 <= r < i && 0 <= c < cols ==> #[trigger] out@[r * cols + c] == dot(
                        ar,
                        br,
                        r,
                        c,
                        inner as nat,
                    ),
                forall|c: int|
                    0 <= c < j ==> #[trigger] out@[i * cols + c] == dot(
                        ar,
                        br,
                        i as int,
                        c,
                        inner as nat,
                    ),
            decreases cols - j,
        {
            let mut acc = T::zero();
            let mut k: usize = 0;
            while k < inner
                invariant
                    is_flat(a@, rows as nat, inner as nat),
                    if transposed_copy {
                is_flat(b@, cols as nat, inner as nat)
            } else {
                is_flat(b@, inner as nat, cols as nat)
            },
                    ar == unflatten(a@, rows as nat, inner as nat),
                    br == right_operand(b@, inner as nat, cols as nat, transposed_copy),
                    i < rows,
                    j < cols,
                    k <= inner,
                    acc == dot(ar, br, i as int, j as int, k as nat),
                decreases inner - k,
            {
                let x = a[flat_index(rows, inner, i, k)];
                let y = if transposed_copy {
                    b[flat_index(cols, inner, j, k)]
                } else {
                    b[flat_index(inner, cols, k, j)]
                };
                proof {
                    lemma_unflatten(a@, rows as nat, inner as nat);
                    assert(ar[i as int][k as int] == x);
                    if transposed_copy {
                        lemma_unflatten(b@, cols as nat, inner as nat);
                        assert(unflatten(b@, cols as nat, inner as nat)[j as int][k as int] == y);
                    } else {
                        lemma_unflatten(b@, inner as nat, cols as nat);
                    }
                    assert(br[k as int][j as int] == y);
                }
                acc = acc.plus(x.times(y));
                k += 1;
            }
            let ghost before = out@;
            out.push(acc);
            proof {
                assert forall|r: int, c: int| 0 <= r < i && 0 <= c < cols implies #[trigger] out@[r
                    * cols + c] == dot(ar, br, r, c, inner as nat) by {
                    lemma_flat_index(r, c, i as int, cols as int);
                    assert(out@[r * cols + c] == before[r * cols + c]);
                }
                assert forall|c: int| 0 <= c < j + 1 implies #[trigger] out@[i * cols + c] == dot(
                    ar,
                    br,
                    i as int,
                    c,
                    inner as nat,
                ) by {
                    if c < j {
                        assert(out@[i * cols + c] == before[i * cols + c]);
                    }
                }
            }
            j += 1;
        }
        proof {
            assert((i + 1) * cols == i * cols + cols) by (nonlinear_arith);
            assert forall|r: int, c: int| 0 <= r < i + 1 && 0 <= c < cols implies #[trigger] out@[r
                * cols + c] == dot(ar, br, r, c, inner as nat) by {
                if r == i {
                    assert(out@[i * cols + c] == dot(ar, br, i as int, c, inner as nat));
                }
            }
        }
        i += 1;
    }
    proof {
        lemma_len_fits(&out);
        lemma_unflatten(out@, rows as nat, cols as nat);
        assert(unflatten(out@, rows as nat, cols as nat) =~~= matrix_product(ar, br));
    }
    out
}

} // verus!

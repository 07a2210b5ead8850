use vstd::prelude::*;
use crate::flat::{flat_index, is_flat, lemma_flat_index, lemma_len_fits, zero_buffer};
use crate::kernel::lemma_position_of_index;
use crate::scalar::{ElementOp, Scalar};
use crate::model::{matrix_elementwise, nested_view, unflatten};
use crate::tiling::{
    block_end, chunk_spans, lemma_block_count, lemma_chunk_spans, lemma_index_of,
    lemma_index_of_injective, Block,
};

verus! {

/// The results of `op` at the positions `start..end` of two buffers.
pub open spec fn chunk_results<T: Scalar>(
    op: ElementOp<T>,
    a: Seq<T>,
    b: Seq<T>,
    start: int,
    end: int,
) -> Seq<T> {
    Seq::new((end - start) as nat, |p: int| op.spec_apply(a[start + p], b[start + p]))
}

/// What one worker computes of an elementwise operation: the results at the
/// positions `start..end`, in a buffer of its own.
pub fn chunk_values<T: Scalar>(
    op: ElementOp<T>,
    a: &Vec<T>,
    b: &Vec<T>,
    start: usize,
    end: usize,
) -> (out: Vec<T>)
    requires
        a@.len() == b@.len(),
        start <= end <= a@.len(),
    ensures
        out@ == chunk_results(op, a@, b@, start as int, end as int),
{
    let mut out: Vec<T> = Vec::new();
    let mut p = start;
    while p < end
        invariant
            a@.len() == b@.len(),
            start <= p <= end <= a@.len(),
            out@ == chunk_results(op, a@, b@, start as int, p as int),
        decreases end - p,
    {
        out.push(op.apply(a[p], b[p]));
        p += 1;
        assert(out@ =~= chunk_results(op, a@, b@, start as int, p as int));
    }
    out
}

/// A buffer that holds the results of `op` at all positions of two flat
/// matrices of one shape stands for the matrix that `op` makes of the two.
pub proof fn lemma_elementwise_buffer<T: Scalar>(
    op: ElementOp<T>,
    out: Seq<T>,
    a: Seq<T>,
    b: Seq<T>,
    rows: nat,
    cols: nat,
)
    requires
        is_flat(a, rows, cols),
        is_flat(b, rows, cols),
        out == chunk_results(op, a, b, 0, a.len() as int),
    ensures
        is_flat(out, rows, cols),
        unflatten(out, rows, cols) == matrix_elementwise(
            op,
            unflatten(a, rows, cols),
            unflatten(b, rows, cols),
        ),
{
    assert forall|i: int, j: int| 0 <= i < rows && 0 <= j < cols implies #[trigger] unflatten(
        out,
        rows,
        cols,
    )[i][j] == op.spec_apply(a[i * cols + j], b[i * cols + j]) by {
        lemma_flat_index(i, j, rows as int, cols as int);
    }
    assert(unflatten(out, rows, cols) =~~= matrix_elementwise(
        op,
        unflatten(a, rows, cols),
        unflatten(b, rows, cols),
    ));
}

/// An elementwise operation on two flat matrices of one shape, position
/// after position.
pub(crate) fn elementwise_buffer<T: Scalar>(
    op: ElementOp<T>,
    a: &Vec<T>,
    b: &Vec<T>,
    rows: usize,
    cols: usize,
) -> (out: Vec<T>)
    requires
        is_flat(a@, rows as nat, cols as nat),
        is_flat(b@, rows as nat, cols as nat),
    ensures
        is_flat(out@, rows as nat, cols as nat),
        unflatten(out@, rows as nat, cols as nat) == matrix_elementwise(
            op,
            unflatten(a@, rows as nat, cols as nat),
            unflatten(b@, rows as nat, cols as nat),
        ),
{
    proof {
        lemma_len_fits(a);
    }
    let out = chunk_values(op, a, b, 0, a.len());
    proof {
        lemma_elementwise_buffer(op, out@, a@, b@, rows as nat, cols as nat);
    }
    out
}

/// Whether position `(r, c)` has been written while the blocks of a matrix
/// are worked through band by band, block by block and row by row: the bands
/// above `tile`, the blocks left of it in its band, and the positions of
/// `tile` before `(i, j)`.
pub open spec fn tiled_written(r: int, c: int, tile: Block, i: int, j: int) -> bool {
    ||| r < tile.row_start
    ||| (r < tile.row_end && c < tile.col_start)
    ||| (tile.contains(r, c) && (r < i || (r == i && c < j)))
}

/// An elementwise operation on two flat matrices of one shape, carried out
/// block by block. The blocks change the order of the work and nothing else.
pub fn tiled_elementwise<T: Scalar>(
    op: ElementOp<T>,
    a: &Vec<T>,
    b: &Vec<T>,
    rows: usize,
    cols: usize,
    block: usize,
) -> (out: Vec<T>)
    requires
        is_flat(a@, rows as nat, cols as nat),
        is_flat(b@, rows as nat, cols as nat),
        block >= 1,
    ensures
        out@ == chunk_results(op, a@, b@, 0, a@.len() as int),
{
    let ghost whole = Block::whole(rows, cols);
    let mut out = zero_buffer::<T>(rows, cols);
    let mut bx: usize = 0;
    while bx < rows
        invariant
            is_flat(a@, rows as nat, cols as nat),
            is_flat(b@, rows as nat, cols as nat),
            is_flat(out@, rows as nat, cols as nat),
            whole == Block::whole(rows, cols),
            block >= 1,
            bx <= rows,
            forall|r: int, c: int|
                whole.contains(r, c) && r < bx ==> out@[#[trigger] whole.index_of(r, c)]
                    == op.spec_apply(a@[whole.index_of(r, c)], b@[whole.index_of(r, c)]),
        decreases rows - bx,
    {
        let bx_end = block_end(bx, block, rows);
        let mut by: usize = 0;
        while by < cols
            invariant
                is_flat(a@, rows as nat, cols as nat),
                is_flat(b@, rows as nat, cols as nat),
                is_flat(out@, rows as nat, cols as nat),
                whole == Block::whole(rows, cols),
                block >= 1,
                bx < bx_end <= rows,
                by <= cols,
                forall|r: int, c: int|
                    whole.contains(r, c) && (r < bx || (r < bx_end && c < by)) ==> out@[#[trigger] whole.index_of(
                        r,
                        c,
                    )] == op.spec_apply(a@[whole.index_of(r, c)], b@[whole.index_of(r, c)]),
            decreases cols - by,
        {
            let by_end = block_end(by, block, cols);
            let ghost tile = Block {
                row_start: bx,
                row_end: bx_end,
                col_start: by,
                col_end: by_end,
            };
            let mut i = bx;
            while i < bx_end
                invariant
                    is_flat(a@, rows as nat, cols as nat),
                    is_flat(b@, rows as nat, cols as nat),
                    is_flat(out@, rows as nat, cols as nat),
                    whole == Block::whole(rows, cols),
                    bx <= i <= bx_end <= rows,
                    by < by_end <= cols,
                    tile == (Block {
                        row_start: bx,
                        row_end: bx_end,
                        col_start: by,
                        col_end: by_end,
                    }),
                    forall|r: int, c: int|
                        whole.contains(r, c) && tiled_written(r, c, tile, i as int, by as int)
                            ==> out@[#[trigger] whole.index_of(r, c)] == op.spec_apply(
                            a@[whole.index_of(r, c)],
                            b@[whole.index_of(r, c)],
                        ),
                decreases bx_end - i,
            {
                let mut j = by;
                while j < by_end
                    invariant
                        is_flat(a@, rows as nat, cols as nat),
                        is_flat(b@, rows as nat, cols as nat),
                        is_flat(out@, rows as nat, cols as nat),
                        whole == Block::whole(rows, cols),
                        bx <= i < bx_end <= rows,
                        by <= j <= by_end <= cols,
                        tile == (Block {
                            row_start: bx,
                            row_end: bx_end,
                            col_start: by,
                            col_end: by_end,
                        }),
                        forall|r: int, c: int|
                            whole.contains(r, c) && tiled_written(r, c, tile, i as int, j as int)
                                ==> out@[#[trigger] whole.index_of(r, c)] == op.spec_apply(
                                a@[whole.index_of(r, c)],
                                b@[whole.index_of(r, c)],
                            ),
                    decreases by_end - j,
                {
                    let p = flat_index(rows, cols, i, j);
                    let ghost before = out@;
                    out.set(p, op.apply(a[p], b[p]));
                    proof {
                        assert(p == whole.index_of(i as int, j as int));
                        assert forall|r: int, c: int|
                            whole.contains(r, c) && !(r == i && c == j) implies out@[#[trigger] whole.index_of(
                            r,
                            c,
                        )] == before[whole.index_of(r, c)] by {
                            lemma_index_of(whole, r, c);
                            if whole.index_of(r, c) == p {
                                lemma_index_of_injective(whole, r, c, i as int, j as int);
                            }
                        }
                    }
                    j += 1;
                }
                i += 1;
            }
            by = by_end;
        }
        bx = bx_end;
    }
    proof {
        assert forall|p: int| 0 <= p < out@.len() implies out@[p] == op.spec_apply(a@[p], b@[p]) by {
            lemma_position_of_index(whole, p);
            let r = p / (cols as int);
            let c = p % (cols as int);
            assert(whole.contains(r, c));
            assert(whole.index_of(r, c) == p);
        }
        assert(out@ =~= chunk_results(op, a@, b@, 0, a@.len() as int));
    }
    out
}

/// The buffers of `parts`, one after the other.
pub fn join_parts<T: Scalar>(parts: &Vec<Vec<T>>) -> (out: Vec<T>)
    ensures
        out@ == nested_view(*parts).flatten(),
{
    let ghost all = nested_view(*parts);
    let mut out: Vec<T> = Vec::new();
    let mut k: usize = 0;
    while k < parts.len()
        invariant
            all == nested_view(*parts),
            k <= parts@.len(),
            out@ == all.take(k as int).flatten(),
        decreases parts@.len() - k,
    {
        let part = &parts[k];
        let ghost joined = out@;
        let mut q: usize = 0;
        while q < part.len()
            invariant
                q <= part@.len(),
                out@ == joined + part@.take(q as int),
            decreases part@.len() - q,
        {
            out.push(part[q]);
            q += 1;
            assert(out@ =~= joined + part@.take(q as int));
        }
        proof {
            assert(part@.take(q as int) =~= part@);
            assert(all.take(k + 1) =~= all.take(k as int).push(part@));
            all.take(k as int).lemma_flatten_push(part@);
        }
        k += 1;
    }
    proof {
        assert(all.take(k as int) =~= all);
    }
    out
}

/// Chunks that hold the results of `op` at their own positions, joined in
/// order, hold the results at all positions.
pub proof fn lemma_chunks_join<T: Scalar>(
    op: ElementOp<T>,
    a: Seq<T>,
    b: Seq<T>,
    len: usize,
    size: usize,
    parts: Seq<Seq<T>>,
)
    requires
        len >= 1,
        size >= 1,
        parts.len() == chunk_spans(len, size).len(),
        forall|k: int|
            0 <= k < parts.len() ==> #[trigger] parts[k] == chunk_results(
                op,
                a,
                b,
                chunk_spans(len, size)[k].0 as int,
                chunk_spans(len, size)[k].1 as int,
            ),
    ensures
        parts.flatten() == chunk_results(op, a, b, 0, len as int),
{
    lemma_chunks_join_prefix(op, a, b, len, size, parts, parts.len());
    assert(parts.take(parts.len() as int) =~= parts);
    lemma_chunk_spans(len, size, parts.len() - 1);
}

proof fn lemma_chunks_join_prefix<T: Scalar>(
    op: ElementOp<T>,
    a: Seq<T>,
    b: Seq<T>,
    len: usize,
    size: usize,
    parts: Seq<Seq<T>>,
    n: nat,
)
    requires
        len >= 1,
        size >= 1,
        parts.len() == chunk_spans(len, size).len(),
        forall|k: int|
            0 <= k < parts.len() ==> #[trigger] parts[k] == chunk_results(
                op,
                a,
                b,
                chunk_spans(len, size)[k].0 as int,
                chunk_spans(len, size)[k].1 as int,
            ),
        n <= parts.len(),
    ensures
        parts.len() >= 1,
        parts.take(n as int).flatten() == chunk_results(
            op,
            a,
            b,
            0,
            if n == 0 {
                0
            } else {
                chunk_spans(len, size)[n - 1].1 as int
            },
        ),
    decreases n,
{
    lemma_block_count(len as nat, size as nat, 0);
    if n == 0 {
        assert(parts.take(0) =~= Seq::<Seq<T>>::empty());
        assert(parts.take(0).flatten() =~= Seq::<T>::empty());
        assert(chunk_results(op, a, b, 0, 0) =~= Seq::<T>::empty());
    } else {
        lemma_chunks_join_prefix(op, a, b, len, size, parts, (n - 1) as nat);
        lemma_chunk_spans(len, size, n - 1);
        if n >= 2 {
            lemma_chunk_spans(len, size, n - 2);
        }
        let start = chunk_spans(len, size)[n - 1].0 as int;
        let end = chunk_spans(len, size)[n - 1].1 as int;
        assert(parts.take(n as int) =~= parts.take(n - 1).push(parts[n - 1]));
        parts.take(n - 1).lemma_flatten_push(parts[n - 1]);
        assert(chunk_results(op, a, b, 0, start) + chunk_results(op, a, b, start, end)
            =~= chunk_results(op, a, b, 0, end));
    }
}

} // verus!

use vstd::prelude::*;
use crate::flat::{flat_index, is_flat, lemma_len_fits, lemma_unflatten, zero_buffer};
use crate::model::{dot, matrix_product, row_count, unflatten, Rows};
use crate::scalar::Scalar;
use crate::tiling::{block_end, lemma_index_of, lemma_index_of_injective, Block};

verus! {

/// What `start` becomes when the terms `k0..k1` of the inner product of row
/// `i` of `a` with column `j` of `b` are added to it one after the other, in
/// ascending order.
pub open spec fn accumulated<T: Scalar>(
    start: T,
    a: Rows<T>,
    b: Rows<T>,
    i: int,
    j: int,
    k0: nat,
    k1: nat,
) -> T
    decreases k1,
{
    if k1 <= k0 {
        start
    } else {
        accumulated(start, a, b, i, j, k0, (k1 - 1) as nat).spec_plus(
            a[i][k1 - 1].spec_times(b[k1 - 1][j]),
        )
    }
}

/// Adding the terms `k0..k1` to the first `k0` terms of an inner product
/// gives its first `k1` terms.
pub proof fn lemma_accumulated_dot<T: Scalar>(a: Rows<T>, b: Rows<T>, i: int, j: int, k0: nat, k1: nat)
    requires
        k0 <= k1,
    ensures
        accumulated(dot(a, b, i, j, k0), a, b, i, j, k0, k1) == dot(a, b, i, j, k1),
    decreases k1,
{
    if k1 > k0 {
        lemma_accumulated_dot(a, b, i, j, k0, (k1 - 1) as nat);
    }
}

/// How far the accumulation of position `(r, c)` has come while a block is
/// worked through row by row: positions before `(i, j)` hold `k1` terms, the
/// others still `k0`.
pub open spec fn terms_done(r: int, c: int, i: int, j: int, k0: nat, k1: nat) -> nat {
    if r < i || (r == i && c < j) {
        k1
    } else {
        k0
    }
}

/// Adds the terms `k0..k1` of the product of `a` and `b` to what the
/// positions of `tile` hold, in a buffer that holds the positions of `window`
/// row after row. Each position takes up its terms in ascending order;
/// positions of the window outside the tile are left as they are.
pub fn multiply_block<T: Scalar>(
    a: &Vec<T>,
    rows: usize,
    inner: usize,
    b: &Vec<T>,
    cols: usize,
    tile: Block,
    k0: usize,
    k1: usize,
    window: Block,
    res: &mut Vec<T>,
)
    requires
        is_flat(a@, rows as nat, inner as nat),
        is_flat(b@, inner as nat, cols as nat),
        tile.is_proper(),
        window.encloses(tile),
        Block::whole(rows, cols).encloses(window),
        k0 <= k1 <= inner,
        old(res)@.len() == window.height() * window.width(),
    ensures
        final(res)@.len() == old(res)@.len(),
        forall|r: int, c: int|
            tile.contains(r, c) ==> final(res)@[#[trigger] window.index_of(r, c)] == accumulated(
                old(res)@[window.index_of(r, c)],
                unflatten(a@, rows as nat, inner as nat),
                unflatten(b@, inner as nat, cols as nat),
                r,
                c,
                k0 as nat,
                k1 as nat,
            ),
        forall|r: int, c: int|
            window.contains(r, c) && !tile.contains(r, c) ==> final(res)@[#[trigger] window.index_of(
                r,
                c,
            )] == old(res)@[window.index_of(r, c)],
{
    let ghost ar = unflatten(a@, rows as nat, inner as nat);
    let ghost br = unflatten(b@, inner as nat, cols as nat);
    let ghost initial = res@;
    let height = window.row_end - window.row_start;
    let width = window.col_end - window.col_start;
    proof {
        lemma_len_fits(res);
    }
    let mut i = tile.row_start;
    while i < tile.row_end
        invariant
            is_flat(a@, rows as nat, inner as nat),
            is_flat(b@, inner as nat, cols as nat),
            ar == unflatten(a@, rows as nat, inner as nat),
            br == unflatten(b@, inner as nat, cols as nat),
            tile.is_proper(),
            window.encloses(tile),
            Block::whole(rows, cols).encloses(window),
            k0 <= k1 <= inner,
            height == window.height(),
            width == window.width(),
            res@.len() == initial.len() == height * width <= usize::MAX,
            tile.row_start <= i <= tile.row_end,
            forall|r: int, c: int|
                tile.contains(r, c) ==> res@[#[trigger] window.index_of(r, c)] == accumulated(
                    initial[window.index_of(r, c)],
                    ar,
                    br,
                    r,
                    c,
                    k0 as nat,
                    terms_done(r, c, i as int, tile.col_start as int, k0 as nat, k1 as nat),
                ),
            forall|r: int, c: int|
                window.contains(r, c) && !tile.contains(r, c) ==> res@[#[trigger] window.index_of(
                    r,
                    c,
                )] == initial[window.index_of(r, c)],
        decreases tile.row_end - i,
    {
        let mut j = tile.col_start;
        while j < tile.col_end
            invariant
                is_flat(a@, rows as nat, inner as nat),
                is_flat(b@, inner as nat, cols as nat),
                ar == unflatten(a@, rows as nat, inner as nat),
                br == unflatten(b@, inner as nat, cols as nat),
                tile.is_proper(),
                window.encloses(tile),
                Block::whole(rows, cols).encloses(window),
                k0 <= k1 <= inner,
                height == window.height(),
                width == window.width(),
                res@.len() == initial.len() == height * width <= usize::MAX,
                tile.row_start <= i < tile.row_end,
                tile.col_start <= j <= tile.col_end,
                forall|r: int, c: int|
                    tile.contains(r, c) ==> res@[#[trigger] window.index_of(r, c)] == accumulated(
                        initial[window.index_of(r, c)],
                        ar,
                        br,
                        r,
                        c,
                        k0 as nat,
                        terms_done(r, c, i as int, j as int, k0 as nat, k1 as nat),
                    ),
                forall|r: int, c: int|
                    window.contains(r, c) && !tile.contains(r, c) ==> res@[#[trigger] window.index_of(
                        r,
                        c,
                    )] == initial[window.index_of(r, c)],
            decreases tile.col_end - j,
        {
            proof {
                lemma_index_of(window, i as int, j as int);
            }
            let p = flat_index(height, width, i - window.row_start, j - window.col_start);
            assert(p == window.index_of(i as int, j as int));
            let mut k = k0;
            while k < k1
                invariant
                    is_flat(a@, rows as nat, inner as nat),
                    is_flat(b@, inner as nat, cols as nat),
                    ar == unflatten(a@, rows as nat, inner as nat),
                    br == unflatten(b@, inner as nat, cols as nat),
                    tile.is_proper(),
                    window.encloses(tile),
                    Block::whole(rows, cols).encloses(window),
                    k0 <= k <= k1 <= inner,
                    height == window.height(),
                    width == window.width(),
                    res@.len() == initial.len() == height * width <= usize::MAX,
                    tile.contains(i as int, j as int),
                    p == window.index_of(i as int, j as int),
                    p < res@.len(),
                    res@[p as int] == accumulated(
                        initial[p as int],
                        ar,
                        br,
                        i as int,
                        j as int,
                        k0 as nat,
                        k as nat,
                    ),
                    forall|r: int, c: int|
                        tile.contains(r, c) && !(r == i && c == j) ==> res@[#[trigger] window.index_of(
                            r,
                            c,
                        )] == accumulated(
                            initial[window.index_of(r, c)],
                            ar,
                            br,
                            r,
                            c,
                            k0 as nat,
                            terms_done(r, c, i as int, j as int, k0 as nat, k1 as nat),
                        ),
                    forall|r: int, c: int|
                        window.contains(r, c) && !tile.contains(r, c) ==> res@[#[trigger] window.index_of(
                            r,
                            c,
                        )] == initial[window.index_of(r, c)],
                decreases k1 - k,
            {
                let x = a[flat_index(rows, inner, i, k)];
                let y = b[flat_index(inner, cols, k, j)];
                let ghost before = res@;
                let cur = res[p];
                res.set(p, cur.plus(x.times(y)));
                proof {
                    lemma_unflatten(a@, rows as nat, inner as nat);
                    lemma_unflatten(b@, inner as nat, cols as nat);
                    assert(ar[i as int][k as int] == x);
                    assert(br[k as int][j as int] == y);
                    assert forall|r: int, c: int|
                        window.contains(r, c) && !(r == i && c == j) implies res@[#[trigger] window.index_of(
                        r,
                        c,
                    )] == before[window.index_of(r, c)] by {
                        lemma_index_of(window, r, c);
                        if window.index_of(r, c) == p {
                            lemma_index_of_injective(window, r, c, i as int, j as int);
                        }
                    }
                }
                k += 1;
            }
            j += 1;
        }
        i += 1;
    }
}

/// The finished elements of the product of `a` and `b` at the positions of
/// `tile`, row after row.
pub open spec fn tile_values<T: Scalar>(a: Rows<T>, b: Rows<T>, tile: Block) -> Seq<T> {
    Seq::new(
        tile.height() * tile.width(),
        |p: int|
            dot(
                a,
                b,
                tile.row_start + p / (tile.width() as int),
                tile.col_start + p % (tile.width() as int),
                row_count(b),
            ),
    )
}

/// Every index of a rectangle's buffer belongs to one of its positions.
pub proof fn lemma_position_of_index(w: Block, p: int)
    requires
        w.is_proper(),
        0 <= p < w.height() * w.width(),
    ensures
        w.contains(w.row_start + p / (w.width() as int), w.col_start + p % (w.width() as int)),
        w.index_of(w.row_start + p / (w.width() as int), w.col_start + p % (w.width() as int))
            == p,
{
    let width = w.width() as int;
    let height = w.height() as int;
    vstd::arithmetic::div_mod::lemma_fundamental_div_mod(p, width);
    vstd::arithmetic::div_mod::lemma_mod_bound(p, width);
    vstd::arithmetic::div_mod::lemma_div_pos_is_pos(p, width);
    assert(width * (p / width) == (p / width) * width) by (nonlinear_arith);
    if p / width >= height {
        assert((p / width) * width >= height * width) by (nonlinear_arith)
            requires
                p / width >= height,
                width >= 1,
        ;
    }
}

/// What one worker computes: the finished elements of the product at the
/// positions of `tile`, in a buffer of its own. The contraction index is
/// walked in steps of `block`, which changes nothing in the result.
pub fn block_product<T: Scalar>(
    a: &Vec<T>,
    rows: usize,
    inner: usize,
    b: &Vec<T>,
    cols: usize,
    tile: Block,
    block: usize,
) -> (out: Vec<T>)
    requires
        is_flat(a@, rows as nat, inner as nat),
        is_flat(b@, inner as nat, cols as nat),
        tile.is_proper(),
        Block::whole(rows, cols).encloses(tile),
        block >= 1,
    ensures
        out@ == tile_values(
            unflatten(a@, rows as nat, inner as nat),
            unflatten(b@, inner as nat, cols as nat),
            tile,
        ),
{
    let ghost ar = unflatten(a@, rows as nat, inner as nat);
    let ghost br = unflatten(b@, inner as nat, cols as nat);
    let height = tile.row_end - tile.row_start;
    let width = tile.col_end - tile.col_start;
    let mut out = zero_buffer::<T>(height, width);
    proof {
        assert forall|r: int, c: int| tile.contains(r, c) implies out@[#[trigger] tile.index_of(
            r,
            c,
        )] == dot(ar, br, r, c, 0) by {
            lemma_index_of(tile, r, c);
        }
    }
    let mut bk: usize = 0;
    while bk < inner
        invariant
            is_flat(a@, rows as nat, inner as nat),
            is_flat(b@, inner as nat, cols as nat),
            ar == unflatten(a@, rows as nat, inner as nat),
            br == unflatten(b@, inner as nat, cols as nat),
            tile.is_proper(),
            Block::whole(rows, cols).encloses(tile),
            block >= 1,
            bk <= inner,
            out@.len() == tile.height() * tile.width(),
            forall|r: int, c: int|
                tile.contains(r, c) ==> out@[#[trigger] tile.index_of(r, c)] == dot(
                    ar,
                    br,
                    r,
                    c,
                    bk as nat,
                ),
        decreases inner - bk,
    {
        let bk_end = block_end(bk, block, inner);
        let ghost before = out@;
        multiply_block(a, rows, inner, b, cols, tile, bk, bk_end, tile, &mut out);
        proof {
            assert forall|r: int, c: int| tile.contains(r, c) implies out@[#[trigger] tile.index_of(
                r,
                c,
            )] == dot(ar, br, r, c, bk_end as nat) by {
                assert(before[tile.index_of(r, c)] == dot(ar, br, r, c, bk as nat));
                lemma_accumulated_dot(ar, br, r, c, bk as nat, bk_end as nat);
            }
        }
        bk = bk_end;
    }
    proof {
        lemma_unflatten(b@, inner as nat, cols as nat);
        assert forall|p: int| 0 <= p < out@.len() implies out@[p] == tile_values(ar, br, tile)[p] by {
            lemma_position_of_index(tile, p);
        }
        assert(out@ =~= tile_values(ar, br, tile));
    }
    out
}

/// How far the accumulation of position `(r, c)` has come while the blocks
/// of the output are worked through band by band: the bands above `band`
/// and the blocks of `band` left of column `bj` are finished, the block at
/// `bj` holds `bk` terms, the rest none.
pub open spec fn blocked_terms_done(
    r: int,
    c: int,
    band: Block,
    bj: int,
    bj_end: int,
    bk: nat,
    inner: nat,
) -> nat {
    if r < band.row_start || (r < band.row_end && c < bj) {
        inner
    } else if r < band.row_end && c < bj_end {
        bk
    } else {
        0
    }
}

/// The product of two flat matrices, computed block by block: the three loop
/// dimensions are cut into steps of `block`, and the last block of each is
/// cut off at the edge of the matrix. Whatever `block` is, every element
/// takes up its terms in ascending order, as in the plain triple loop.
pub fn blocked_product<T: Scalar>(
    a: &Vec<T>,
    rows: usize,
    inner: usize,
    b: &Vec<T>,
    cols: usize,
    block: usize,
) -> (out: Vec<T>)
    requires
        is_flat(a@, rows as nat, inner as nat),
        is_flat(b@, inner as nat, cols as nat),
        block >= 1,
    ensures
        is_flat(out@, rows as nat, cols as nat),
        unflatten(out@, rows as nat, cols as nat) == matrix_product(
            unflatten(a@, rows as nat, inner as nat),
            unflatten(b@, inner as nat, cols as nat),
        ),
{
    let ghost ar = unflatten(a@, rows as nat, inner as nat);
    let ghost br = unflatten(b@, inner as nat, cols as nat);
    let ghost whole = Block::whole(rows, cols);
    let window = Block { row_start: 0, row_end: rows, col_start: 0, col_end: cols };
    let mut out = zero_buffer::<T>(rows, cols);
    proof {
        assert forall|r: int, c: int| whole.contains(r, c) implies out@[#[trigger] whole.index_of(
            r,
            c,
        )] == dot(ar, br, r, c, 0) by {
            lemma_index_of(whole, r, c);
        }
    }
    let mut bi: usize = 0;
    while bi < rows
        invariant
            is_flat(a@, rows as nat, inner as nat),
            is_flat(b@, inner as nat, cols as nat),
            ar == unflatten(a@, rows as nat, inner as nat),
            br == unflatten(b@, inner as nat, cols as nat),
            whole == Block::whole(rows, cols),
            window == whole,
            block >= 1,
            bi <= rows,
            is_flat(out@, rows as nat, cols as nat),
            forall|r: int, c: int|
                whole.contains(r, c) ==> out@[#[trigger] whole.index_of(r, c)] == dot(
                    ar,
                    br,
                    r,
                    c,
                    if r < bi {
                        inner as nat
                    } else {
                        0
                    },
                ),
        decreases rows - bi,
    {
        let bi_end = block_end(bi, block, rows);
        let ghost band = Block { row_start: bi, row_end: bi_end, col_start: 0, col_end: cols };
        let mut bj: usize = 0;
        while bj < cols
            invariant
                is_flat(a@, rows as nat, inner as nat),
                is_flat(b@, inner as nat, cols as nat),
                ar == unflatten(a@, rows as nat, inner as nat),
                br == unflatten(b@, inner as nat, cols as nat),
                whole == Block::whole(rows, cols),
                window == whole,
                block >= 1,
                bi < bi_end <= rows,
                band == (Block { row_start: bi, row_end: bi_end, col_start: 0, col_end: cols }),
                bj <= cols,
                is_flat(out@, rows as nat, cols as nat),
                forall|r: int, c: int|
                    whole.contains(r, c) ==> out@[#[trigger] whole.index_of(r, c)] == dot(
                        ar,
                        br,
                        r,
                        c,
                        blocked_terms_done(r, c, band, bj as int, bj as int, 0, inner as nat),
                    ),
            decreases cols - bj,
        {
            let bj_end = block_end(bj, block, cols);
            let tile = Block { row_start: bi, row_end: bi_end, col_start: bj, col_end: bj_end };
            let mut bk: usize = 0;
            while bk < inner
                invariant
                    is_flat(a@, rows as nat, inner as nat),
                    is_flat(b@, inner as nat, cols as nat),
                    ar == unflatten(a@, rows as nat, inner as nat),
                    br == unflatten(b@, inner as nat, cols as nat),
                    whole == Block::whole(rows, cols),
                    window == whole,
                    block >= 1,
                    bi < bi_end <= rows,
                    bj < bj_end <= cols,
                    band == (Block { row_start: bi, row_end: bi_end, col_start: 0, col_end: cols }),
                    tile == (Block {
                        row_start: bi,
                        row_end: bi_end,
                        col_start: bj,
                        col_end: bj_end,
                    }),
                    bk <= inner,
                    is_flat(out@, rows as nat, cols as nat),
                    forall|r: int, c: int|
                        whole.contains(r, c) ==> out@[#[trigger] whole.index_of(r, c)] == dot(
                            ar,
                            br,
                            r,
                            c,
                            blocked_terms_done(
                                r,
                                c,
                                band,
                                bj as int,
                                bj_end as int,
                                bk as nat,
                                inner as nat,
                            ),
                        ),
                decreases inner - bk,
            {
                let bk_end = block_end(bk, block, inner);
                let ghost before = out@;
                multiply_block(a, rows, inner, b, cols, tile, bk, bk_end, window, &mut out);
                proof {
                    assert forall|r: int, c: int| whole.contains(r, c) implies out@[#[trigger] whole.index_of(
                        r,
                        c,
                    )] == dot(
                        ar,
                        br,
                        r,
                        c,
                        blocked_terms_done(
                            r,
                            c,
                            band,
                            bj as int,
                            bj_end as int,
                            bk_end as nat,
                            inner as nat,
                        ),
                    ) by {
                        if tile.contains(r, c) {
                            assert(before[whole.index_of(r, c)] == dot(ar, br, r, c, bk as nat));
                            lemma_accumulated_dot(ar, br, r, c, bk as nat, bk_end as nat);
                        }
                    }
                }
                bk = bk_end;
            }
            bj = bj_end;
        }
        bi = bi_end;
    }
    proof {
        lemma_unflatten(out@, rows as nat, cols as nat);
        lemma_unflatten(b@, inner as nat, cols as nat);
        lemma_unflatten(a@, rows as nat, inner as nat);
        assert forall|i: int, j: int| 0 <= i < rows && 0 <= j < cols implies #[trigger] unflatten(
            out@,
            rows as nat,
            cols as nat,
        )[i][j] == dot(ar, br, i, j, inner as nat) by {
            assert(whole.contains(i, j));
            assert(whole.index_of(i, j) == i * cols + j);
        }
        assert(unflatten(out@, rows as nat, cols as nat) =~~= matrix_product(ar, br));
    }
    out
}

} // verus!

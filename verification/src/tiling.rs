use vstd::prelude::*;
use crate::flat::lemma_flat_index;

verus! {

/// A rectangle of matrix positions: rows `row_start..row_end`, columns
/// `col_start..col_end`.
#[derive(Debug, Clone, Copy, PartialEq, Eq, Structural)]
pub struct Block {
    pub row_start: usize,
    pub row_end: usize,
    pub col_start: usize,
    pub col_end: usize,
}

impl Block {
    /// Neither empty nor reversed.
    pub open spec fn is_proper(self) -> bool {
        self.row_start < self.row_end && self.col_start < self.col_end
    }

    pub open spec fn height(self) -> nat {
        (self.row_end - self.row_start) as nat
    }

    pub open spec fn width(self) -> nat {
        (self.col_end - self.col_start) as nat
    }

    pub open spec fn contains(self, i: int, j: int) -> bool {
        self.row_start <= i < self.row_end && self.col_start <= j < self.col_end
    }

    /// Every position of `inner` is a position of `self`.
    pub open spec fn encloses(self, inner: Block) -> bool {
        &&& self.row_start <= inner.row_start
        &&& inner.row_end <= self.row_end
        &&& self.col_start <= inner.col_start
        &&& inner.col_end <= self.col_end
    }

    /// Where position `(i, j)` lies in a row-major buffer that holds exactly
    /// the positions of this rectangle.
    pub open spec fn index_of(self, i: int, j: int) -> int {
        (i - self.row_start) * self.width() + (j - self.col_start)
    }

    /// The rectangle of a whole matrix.
    pub open spec fn whole(rows: usize, cols: usize) -> Block {
        Block { row_start: 0, row_end: rows, col_start: 0, col_end: cols }
    }
}

/// Inside a rectangle, `index_of` stays within the buffer and tells
/// positions apart.
pub proof fn lemma_index_of(w: Block, i: int, j: int)
    requires
        w.contains(i, j),
    ensures
        0 <= w.index_of(i, j) < w.height() * w.width(),
        w.index_of(i, j) / (w.width() as int) == i - w.row_start,
        w.index_of(i, j) % (w.width() as int) == j - w.col_start,
{
    lemma_flat_index(i - w.row_start, j - w.col_start, w.height() as int, w.width() as int);
}

/// Two positions of a rectangle with one index are one position.
pub proof fn lemma_index_of_injective(w: Block, i: int, j: int, r: int, c: int)
    requires
        w.contains(i, j),
        w.contains(r, c),
        w.index_of(i, j) == w.index_of(r, c),
    ensures
        i == r,
        j == c,
{
    lemma_index_of(w, i, j);
    lemma_index_of(w, r, c);
}

/// The number of blocks of size `block` that it takes to cover `extent`.
pub open spec fn block_count(extent: nat, block: nat) -> nat {
    ((extent + block - 1) / (block as int)) as nat
}

/// `block_count` is the least number of blocks that reach `extent`: `t`
/// blocks fall short of `extent` exactly when `t` is below it.
pub proof fn lemma_block_count(extent: nat, block: nat, t: int)
    requires
        block >= 1,
        0 <= t,
    ensures
        t * block < extent <==> t < block_count(extent, block),
{
    let b = block as int;
    let c = (extent + block - 1) / b;
    vstd::arithmetic::div_mod::lemma_fundamental_div_mod(extent + block - 1, b);
    vstd::arithmetic::div_mod::lemma_mod_bound(extent + block - 1, b);
    assert(b * c + (extent + block - 1) % b == extent + block - 1);
    if t >= c {
        assert(t * b >= b * c) by (nonlinear_arith)
            requires
                t >= c,
                b >= 1,
        ;
    } else {
        assert(t * b <= b * c - b) by (nonlinear_arith)
            requires
                t <= c - 1,
                b >= 1,
        ;
    }
}

/// Where the block that starts at `start` ends: `block` further on, or at
/// `extent` if that comes first.
pub fn block_end(start: usize, block: usize, extent: usize) -> (end: usize)
    requires
        start < extent,
        block >= 1,
    ensures
        start < end <= extent,
        end == if start + block < extent { start + block } else { extent as int },
{
    if extent - start > block {
        start + block
    } else {
        extent
    }
}

/// Where a block that starts at `start` ends, as a number.
pub open spec fn clamped_end(start: int, block: nat, extent: nat) -> int {
    if start + block < extent {
        start + block
    } else {
        extent as int
    }
}

/// How many blocks the grid over a `rows` by `cols` output has.
pub open spec fn grid_len(rows: nat, cols: nat, block: nat) -> nat {
    block_count(rows, block) * block_count(cols, block)
}

/// Block number `t` of the grid, counted along the rows of blocks: it starts
/// at a multiple of `block` in each direction and is cut off at the edge of
/// the output.
pub open spec fn grid_tile(rows: usize, cols: usize, block: usize, t: int) -> Block {
    let per_row = block_count(cols as nat, block as nat) as int;
    let r0 = (t / per_row) * block;
    let c0 = (t % per_row) * block;
    Block {
        row_start: r0 as usize,
        row_end: clamped_end(r0, block as nat, rows as nat) as usize,
        col_start: c0 as usize,
        col_end: clamped_end(c0, block as nat, cols as nat) as usize,
    }
}

/// The blocks that the output of a multiplication is divided into.
pub open spec fn grid(rows: usize, cols: usize, block: usize) -> Seq<Block> {
    Seq::new(
        grid_len(rows as nat, cols as nat, block as nat),
        |t: int| grid_tile(rows, cols, block, t),
    )
}

/// The number of the block that position `(i, j)` falls into.
pub open spec fn tile_of(cols: usize, block: usize, i: int, j: int) -> int {
    (i / (block as int)) * block_count(cols as nat, block as nat) + j / (block as int)
}

/// Block `t` of the grid, by the row and column of blocks that it stands in.
proof fn lemma_grid_tile_at(rows: usize, cols: usize, block: usize, ti: int, tj: int)
    requires
        block >= 1,
        0 <= ti < block_count(rows as nat, block as nat),
        0 <= tj < block_count(cols as nat, block as nat),
    ensures
        ({
            let t = ti * block_count(cols as nat, block as nat) + tj;
            let tile = grid_tile(rows, cols, block, t);
            &&& 0 <= t < grid_len(rows as nat, cols as nat, block as nat)
            &&& t / (block_count(cols as nat, block as nat) as int) == ti
            &&& t % (block_count(cols as nat, block as nat) as int) == tj
            &&& tile.row_start == ti * block
            &&& tile.row_end == clamped_end(ti * block, block as nat, rows as nat)
            &&& tile.col_start == tj * block
            &&& tile.col_end == clamped_end(tj * block, block as nat, cols as nat)
            &&& ti * block < rows
            &&& tj * block < cols
        }),
{
    let per_row = block_count(cols as nat, block as nat) as int;
    let bands = block_count(rows as nat, block as nat) as int;
    lemma_flat_index(ti, tj, bands, per_row);
    lemma_block_count(rows as nat, block as nat, ti);
    lemma_block_count(cols as nat, block as nat, tj);
    assert(0 <= ti * block) by (nonlinear_arith)
        requires
            0 <= ti,
            0 <= block,
    ;
    assert(0 <= tj * block) by (nonlinear_arith)
        requires
            0 <= tj,
            0 <= block,
    ;
}

/// Every block of the grid is a proper rectangle inside the output, at most
/// `block` high and wide.
pub proof fn lemma_grid_tile_proper(rows: usize, cols: usize, block: usize, t: int)
    requires
        rows >= 1,
        cols >= 1,
        block >= 1,
        0 <= t < grid_len(rows as nat, cols as nat, block as nat),
    ensures
        grid_tile(rows, cols, block, t).is_proper(),
        Block::whole(rows, cols).encloses(grid_tile(rows, cols, block, t)),
        grid_tile(rows, cols, block, t).height() <= block,
        grid_tile(rows, cols, block, t).width() <= block,
{
    let per_row = block_count(cols as nat, block as nat) as int;
    let bands = block_count(rows as nat, block as nat) as int;
    lemma_block_count(cols as nat, block as nat, 0);
    let ti = t / per_row;
    let tj = t % per_row;
    vstd::arithmetic::div_mod::lemma_fundamental_div_mod(t, per_row);
    vstd::arithmetic::div_mod::lemma_mod_bound(t, per_row);
    vstd::arithmetic::div_mod::lemma_div_pos_is_pos(t, per_row);
    if ti >= bands {
        assert(per_row * ti >= per_row * bands) by (nonlinear_arith)
            requires
                ti >= bands,
                per_row >= 1,
        ;
        assert(per_row * bands == bands * per_row) by (nonlinear_arith);
    }
    assert(per_row * ti == ti * per_row) by (nonlinear_arith);
    lemma_grid_tile_at(rows, cols, block, ti, tj);
}

/// The grid tiles the output: every position lies in the block that
/// `tile_of` names, and in no other block of the grid.
pub proof fn lemma_grid_partitions(rows: usize, cols: usize, block: usize, i: int, j: int)
    requires
        block >= 1,
        0 <= i < rows,
        0 <= j < cols,
    ensures
        0 <= tile_of(cols, block, i, j) < grid_len(rows as nat, cols as nat, block as nat),
        grid_tile(rows, cols, block, tile_of(cols, block, i, j)).contains(i, j),
        forall|u: int|
            0 <= u < grid_len(rows as nat, cols as nat, block as nat) && #[trigger] grid_tile(
                rows,
                cols,
                block,
                u,
            ).contains(i, j) ==> u == tile_of(cols, block, i, j),
{
    let b = block as int;
    let per_row = block_count(cols as nat, block as nat) as int;
    let bands = block_count(rows as nat, block as nat) as int;
    let ti = i / b;
    let tj = j / b;
    vstd::arithmetic::div_mod::lemma_fundamental_div_mod(i, b);
    vstd::arithmetic::div_mod::lemma_mod_bound(i, b);
    vstd::arithmetic::div_mod::lemma_div_pos_is_pos(i, b);
    vstd::arithmetic::div_mod::lemma_fundamental_div_mod(j, b);
    vstd::arithmetic::div_mod::lemma_mod_bound(j, b);
    vstd::arithmetic::div_mod::lemma_div_pos_is_pos(j, b);
    assert(b * ti == ti * b) by (nonlinear_arith);
    assert(b * tj == tj * b) by (nonlinear_arith);
    lemma_block_count(rows as nat, block as nat, ti);
    lemma_block_count(cols as nat, block as nat, tj);
    lemma_grid_tile_at(rows, cols, block, ti, tj);
    assert forall|u: int|
        0 <= u < grid_len(rows as nat, cols as nat, block as nat) && #[trigger] grid_tile(
            rows,
            cols,
            block,
            u,
        ).contains(i, j) implies u == tile_of(cols, block, i, j) by {
        let ui = u / per_row;
        let uj = u % per_row;
        vstd::arithmetic::div_mod::lemma_fundamental_div_mod(u, per_row);
        vstd::arithmetic::div_mod::lemma_mod_bound(u, per_row);
        vstd::arithmetic::div_mod::lemma_div_pos_is_pos(u, per_row);
        if ui >= bands {
            assert(per_row * ui >= per_row * bands) by (nonlinear_arith)
                requires
                    ui >= bands,
                    per_row >= 1,
            ;
            assert(per_row * bands == bands * per_row) by (nonlinear_arith);
        }
        assert(per_row * ui == ui * per_row) by (nonlinear_arith);
        lemma_grid_tile_at(rows, cols, block, ui, uj);
        vstd::arithmetic::div_mod::lemma_fundamental_div_mod_converse(i, b, ui, i - ui * b);
        vstd::arithmetic::div_mod::lemma_fundamental_div_mod_converse(j, b, uj, j - uj * b);
    }
}

/// Lists the blocks that the output of a multiplication is divided into,
/// along the rows of blocks.
pub fn block_grid(rows: usize, cols: usize, block: usize) -> (tiles: Vec<Block>)
    requires
        rows >= 1,
        cols >= 1,
        block >= 1,
    ensures
        tiles@ == grid(rows, cols, block),
{
    let ghost per_row = block_count(cols as nat, block as nat) as int;
    let ghost bands = block_count(rows as nat, block as nat) as int;
    let mut tiles: Vec<Block> = Vec::new();
    let mut bi: usize = 0;
    let ghost mut ti: int = 0;
    while bi < rows
        invariant
            rows >= 1,
            cols >= 1,
            block >= 1,
            per_row == block_count(cols as nat, block as nat),
            bands == block_count(rows as nat, block as nat),
            0 <= ti <= bands,
            bi == (if ti * block < rows { ti * block } else { rows as int }),
            tiles@.len() == ti * per_row,
            forall|t: int| 0 <= t < tiles@.len() ==> tiles@[t] == grid_tile(rows, cols, block, t),
        decreases rows - bi,
    {
        let bi_end = block_end(bi, block, rows);
        let mut bj: usize = 0;
        let ghost mut tj: int = 0;
        proof {
            lemma_block_count(rows as nat, block as nat, ti);
        }
        while bj < cols
            invariant
                rows >= 1,
                cols >= 1,
                block >= 1,
                per_row == block_count(cols as nat, block as nat),
                bands == block_count(rows as nat, block as nat),
                0 <= ti < bands,
                bi == ti * block,
                bi < rows,
                bi_end == clamped_end(bi as int, block as nat, rows as nat),
                0 <= tj <= per_row,
                bj == (if tj * block < cols { tj * block } else { cols as int }),
                tiles@.len() == ti * per_row + tj,
                forall|t: int|
                    0 <= t < tiles@.len() ==> tiles@[t] == grid_tile(rows, cols, block, t),
            decreases cols - bj,
        {
            let bj_end = block_end(bj, block, cols);
            proof {
                lemma_block_count(cols as nat, block as nat, tj);
                lemma_grid_tile_at(rows, cols, block, ti, tj);
                lemma_block_count(cols as nat, block as nat, tj + 1);
                assert((tj + 1) * block == tj * block + block) by (nonlinear_arith);
            }
            tiles.push(
                Block { row_start: bi, row_end: bi_end, col_start: bj, col_end: bj_end },
            );
            bj = bj_end;
            proof {
                tj = tj + 1;
            }
        }
        proof {
            lemma_block_count(cols as nat, block as nat, tj);
            lemma_block_count(rows as nat, block as nat, ti + 1);
            assert((ti + 1) * block == ti * block + block) by (nonlinear_arith);
            assert((ti + 1) * per_row == ti * per_row + per_row) by (nonlinear_arith);
            ti = ti + 1;
        }
        bi = bi_end;
    }
    proof {
        lemma_block_count(rows as nat, block as nat, ti);
        assert(tiles@ =~= grid(rows, cols, block));
    }
    tiles
}

/// The chunks of `size` positions that a buffer of `len` positions is cut
/// into, each as the pair of its first position and the one after its last.
/// Only the last chunk can be shorter than `size`.
pub open spec fn chunk_spans(len: usize, size: usize) -> Seq<(usize, usize)> {
    Seq::new(
        block_count(len as nat, size as nat),
        |k: int| ((k * size) as usize, clamped_end(k * size, size as nat, len as nat) as usize),
    )
}

/// Chunk `k` starts where chunk `k - 1` ends, the first at zero, the last
/// ends at `len`, and none is empty.
pub proof fn lemma_chunk_spans(len: usize, size: usize, k: int)
    requires
        size >= 1,
        0 <= k < block_count(len as nat, size as nat),
    ensures
        chunk_spans(len, size)[k].0 == k * size,
        chunk_spans(len, size)[k].0 < chunk_spans(len, size)[k].1 <= len,
        chunk_spans(len, size)[k].1 == (if k + 1 < block_count(len as nat, size as nat) {
            (k + 1) * size
        } else {
            len as int
        }),
{
    lemma_block_count(len as nat, size as nat, k);
    lemma_block_count(len as nat, size as nat, k + 1);
    assert((k + 1) * size == k * size + size) by (nonlinear_arith);
    assert(0 <= k * size) by (nonlinear_arith)
        requires
            0 <= k,
            0 <= size,
    ;
}

/// The chunk size that spreads `len` positions over at most `workers`
/// chunks: `len` divided by `workers`, rounded up.
pub fn chunk_size(len: usize, workers: usize) -> (size: usize)
    requires
        len >= 1,
        workers >= 1,
    ensures
        size == block_count(len as nat, workers as nat),
        size >= 1,
        1 <= block_count(len as nat, size as nat) <= workers,
{
    let quotient = len / workers;
    let remainder = len % workers;
    proof {
        vstd::arithmetic::div_mod::lemma_fundamental_div_mod(len as int, workers as int);
        assert(workers * quotient >= quotient) by (nonlinear_arith)
            requires
                workers >= 1,
                quotient >= 0,
        ;
    }
    let size = if remainder == 0 {
        quotient
    } else {
        quotient + 1
    };
    proof {
        let w = workers as int;
        vstd::arithmetic::div_mod::lemma_fundamental_div_mod(len as int, w);
        assert(w * (len as int / w) == (len as int / w) * w) by (nonlinear_arith);
        if remainder == 0 {
            vstd::arithmetic::div_mod::lemma_fundamental_div_mod_converse(
                len + workers - 1,
                w,
                quotient as int,
                w - 1,
            );
        } else {
            assert((quotient + 1) * w == quotient * w + w) by (nonlinear_arith);
            vstd::arithmetic::div_mod::lemma_fundamental_div_mod_converse(
                len + workers - 1,
                w,
                quotient + 1,
                remainder - 1,
            );
        }
        lemma_block_count(len as nat, workers as nat, 0);
        assert(size >= 1);
        assert(workers * size >= len) by {
            lemma_block_count(len as nat, workers as nat, size as int);
            assert(workers * size == size * workers) by (nonlinear_arith);
        }
        lemma_block_count(len as nat, size as nat, workers as int);
        lemma_block_count(len as nat, size as nat, 0);
    }
    size
}

/// Lists the chunks of `size` positions that a buffer of `len` positions is
/// cut into.
pub fn chunk_ranges(len: usize, size: usize) -> (spans: Vec<(usize, usize)>)
    requires
        len >= 1,
        size >= 1,
    ensures
        spans@ == chunk_spans(len, size),
{
    let ghost count = block_count(len as nat, size as nat) as int;
    let mut spans: Vec<(usize, usize)> = Vec::new();
    let mut start: usize = 0;
    let ghost mut k: int = 0;
    while start < len
        invariant
            len >= 1,
            size >= 1,
            count == block_count(len as nat, size as nat),
            0 <= k <= count,
            start == (if k * size < len { k * size } else { len as int }),
            spans@.len() == k,
            forall|t: int| 0 <= t < k ==> spans@[t] == chunk_spans(len, size)[t],
        decreases len - start,
    {
        let end = block_end(start, size, len);
        proof {
            lemma_block_count(len as nat, size as nat, k);
            lemma_block_count(len as nat, size as nat, k + 1);
            lemma_chunk_spans(len, size, k);
            assert((k + 1) * size == k * size + size) by (nonlinear_arith);
        }
        spans.push((start, end));
        start = end;
        proof {
            k = k + 1;
        }
    }
    proof {
        lemma_block_count(len as nat, size as nat, k);
        assert(spans@ =~= chunk_spans(len, size));
    }
    spans
}

} // verus!

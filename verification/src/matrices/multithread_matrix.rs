use vstd::prelude::*;
use crate::elementwise::{
    chunk_results, chunk_values, join_parts, lemma_chunks_join, lemma_elementwise_buffer,
};
use crate::error::MatrixError;
use crate::flat::{
    flat_index, flatten, identity_buffer, is_flat, lemma_flat_index, lemma_identity_buffer,
    lemma_len_fits, lemma_unflatten, lemma_zero_buffer, unflatten_rows, zero_buffer,
};
use crate::kernel::{block_product, tile_values};
use crate::model::{
    col_count, dot, matrix_elementwise, matrix_product, nested_view, row_count, unflatten, Rows,
};
use crate::scalar::{ElementOp, Scalar};
use crate::tiling::{
    block_count, block_grid, chunk_ranges, chunk_size, chunk_spans, grid, grid_len, grid_tile,
    lemma_chunk_spans, lemma_grid_partitions, lemma_grid_tile_proper, lemma_index_of, tile_of,
    Block,
};
use crate::Matrix;

verus! {

/// How many workers an operation may keep busy at most.
pub const NUM_THREADS: usize = 16;

/// The edge length of the blocks that the output of a multiplication is
/// divided into, one block to a task.
pub const BLOCK_SIZE: usize = 8;

/// `rayon::ThreadPoolBuildError`: why a pool could not be built. Nothing is
/// read from it.
#[verifier::external_type_specification]
#[verifier::external_body]
pub struct ExThreadPoolBuildError(rayon::ThreadPoolBuildError);

/// The multithreaded representation: one row-major buffer, and operations
/// whose work is divided into parts that write nothing in common. A
/// multiplication gives each block of the output to a task of a worker pool;
/// an elementwise operation gives each worker one run of consecutive
/// positions.
#[derive(Debug)]
pub struct MultithreadMatrix<T: Scalar + Send + Sync> {
    data: Vec<T>,
    shape: (usize, usize),
}

/// Runs `block_product` for every block of `tiles` on a `rayon` pool of at
/// most `workers` threads, built with `ThreadPoolBuilder::build`, inside
/// `ThreadPool::scope`, one `Scope::spawn` per block; task `t` writes its
/// result to slot `t` of `parts` and to nothing else.
///
/// Taken on trust: that the scope returns only when every spawned task has
/// run to its end, so that slot `t` then holds what `block_product` returns
/// for block `t`. Nothing is claimed of whether the pool can be built.
#[verifier::external_body]
fn run_block_tasks<T: Scalar + Send + Sync>(
    a: &Vec<T>,
    rows: usize,
    inner: usize,
    b: &Vec<T>,
    cols: usize,
    tiles: &Vec<Block>,
    block: usize,
    workers: usize,
    parts: &mut Vec<Vec<T>>,
) -> (built: Result<(), rayon::ThreadPoolBuildError>)
    requires
        is_flat(a@, rows as nat, inner as nat),
        is_flat(b@, inner as nat, cols as nat),
        block >= 1,
        forall|t: int|
            0 <= t < tiles@.len() ==> (#[trigger] tiles@[t]).is_proper() && Block::whole(
                rows,
                cols,
            ).encloses(tiles@[t]),
        old(parts)@.len() == tiles@.len(),
    ensures
        final(parts)@.len() == tiles@.len(),
        built is Ok ==> forall|t: int|
            0 <= t < tiles@.len() ==> (#[trigger] final(parts)@[t])@ == tile_values(
                unflatten(a@, rows as nat, inner as nat),
                unflatten(b@, inner as nat, cols as nat),
                tiles@[t],
            ),
{
    let pool = rayon::ThreadPoolBuilder::new().num_threads(workers).build()?;
    pool.scope(|s| {
        for (part, tile) in parts.iter_mut().zip(tiles.iter()) {
            s.spawn(move |_| *part = block_product(a, rows, inner, b, cols, *tile, block));
        }
    });
    Ok(())
}

/// Runs `chunk_values` for every chunk of `spans` on a thread of its own,
/// inside `crossbeam::scope`, each started with `ScopedThreadBuilder::spawn`;
/// thread `k` writes its result to slot `k` of `parts` and to nothing else.
/// The result says whether every thread could be started and none panicked.
///
/// Taken on trust: that the scope joins every thread it started before it
/// returns, and returns `Ok` only if none of them panicked, so that, where
/// all threads were started, slot `k` then holds what `chunk_values` returns
/// for chunk `k`. Nothing is claimed of whether a thread can be started.
#[verifier::external_body]
fn run_chunk_tasks<T: Scalar + Send + Sync>(
    op: ElementOp<T>,
    a: &Vec<T>,
    b: &Vec<T>,
    spans: &Vec<(usize, usize)>,
    parts: &mut Vec<Vec<T>>,
) -> (done: bool)
    requires
        a@.len() == b@.len(),
        forall|k: int|
            0 <= k < spans@.len() ==> (#[trigger] spans@[k]).0 <= spans@[k].1 <= a@.len(),
        old(parts)@.len() == spans@.len(),
    ensures
        final(parts)@.len() == spans@.len(),
        done ==> forall|k: int|
            0 <= k < spans@.len() ==> (#[trigger] final(parts)@[k])@ == chunk_results(
                op,
                a@,
                b@,
                spans@[k].0 as int,
                spans@[k].1 as int,
            ),
{
    let started = crossbeam::scope(|s| {
        parts.iter_mut().zip(spans.iter()).all(|(part, span)| {
            s.builder().spawn(move |_| *part = chunk_values(op, a, b, span.0, span.1)).is_ok()
        })
    });
    matches!(started, Ok(true))
}

/// One empty buffer for each of `count` workers to put its result in.
fn empty_parts<T: Scalar>(count: usize) -> (parts: Vec<Vec<T>>)
    ensures
        parts@.len() == count,
        forall|k: int| 0 <= k < count ==> (#[trigger] parts@[k])@.len() == 0,
{
    let mut parts: Vec<Vec<T>> = Vec::new();
    let mut k: usize = 0;
    while k < count
        invariant
            k <= count,
            parts@.len() == k,
            forall|q: int| 0 <= q < k ==> (#[trigger] parts@[q])@.len() == 0,
        decreases count - k,
    {
        parts.push(Vec::new());
        k += 1;
    }
    parts
}

/// Whether `parts` holds one buffer for every block of the grid, each of the
/// size of its block.
pub open spec fn blocks_fit<T>(parts: Rows<T>, rows: usize, cols: usize, block: usize) -> bool {
    &&& parts.len() == grid_len(rows as nat, cols as nat, block as nat)
    &&& forall|t: int|
        0 <= t < parts.len() ==> (#[trigger] parts[t]).len() == grid_tile(
            rows,
            cols,
            block,
            t,
        ).height() * grid_tile(rows, cols, block, t).width()
}

/// The matrix whose every element is taken from the buffer of the one block
/// that its position falls into.
pub open spec fn stitched<T>(parts: Rows<T>, rows: usize, cols: usize, block: usize) -> Rows<T> {
    Seq::new(
        rows as nat,
        |i: int|
            Seq::new(
                cols as nat,
                |j: int|
                    parts[tile_of(cols, block, i, j)][grid_tile(
                        rows,
                        cols,
                        block,
                        tile_of(cols, block, i, j),
                    ).index_of(i, j)],
            ),
    )
}

impl<T: Scalar + Send + Sync> MultithreadMatrix<T> {
    fn new_from_vec(data: Vec<T>, rows: usize, cols: usize) -> (m: Self)
        requires
            is_flat(data@, rows as nat, cols as nat),
        ensures
            m.wf(),
            m.entries() == unflatten(data@, rows as nat, cols as nat),
    {
        Self { data, shape: (rows, cols) }
    }

    /// The row-major buffer itself.
    pub fn get_data_vec(&self) -> (buf: &Vec<T>)
        requires
            self.wf(),
        ensures
            is_flat(buf@, row_count(self.entries()), col_count(self.entries())),
            unflatten(buf@, row_count(self.entries()), col_count(self.entries()))
                == self.entries(),
    {
        proof {
            lemma_unflatten(self.data@, self.shape.0 as nat, self.shape.1 as nat);
        }
        &self.data
    }

    /// The element in row `row` and column `col`.
    #[inline(always)]
    pub fn get(&self, row: usize, col: usize) -> (x: T)
        requires
            self.wf(),
            row < row_count(self.entries()),
            col < col_count(self.entries()),
        ensures
            x == self.entries()[row as int][col as int],
    {
        proof {
            lemma_unflatten(self.data@, self.shape.0 as nat, self.shape.1 as nat);
        }
        self.data[flat_index(self.shape.0, self.shape.1, row, col)]
    }

    /// Makes the result of an elementwise operation out of what the workers
    /// handed back: the chunks joined in order, if every worker finished and
    /// the chunks together fill a matrix of `rows` by `cols`.
    pub fn from_chunks(outcome: Option<Vec<Vec<T>>>, rows: usize, cols: usize) -> (r: Result<
        Self,
        MatrixError,
    >)
        requires
            rows >= 1,
            cols >= 1,
        ensures
            match r {
                Ok(m) => {
                    &&& outcome matches Some(parts)
                    &&& nested_view(parts).flatten().len() == rows * cols
                    &&& m.wf()
                    &&& m.entries() == unflatten(
                        nested_view(parts).flatten(),
                        rows as nat,
                        cols as nat,
                    )
                },
                Err(e) => {
                    &&& e == MatrixError::WorkerFailure
                    &&& !(outcome matches Some(parts) && nested_view(parts).flatten().len()
                        == rows * cols)
                },
            },
    {
        match outcome {
            None => Err(MatrixError::WorkerFailure),
            Some(parts) => {
                let data = join_parts(&parts);
                let joined = data.len();
                match rows.checked_mul(cols) {
                    Some(len) => {
                        if joined == len {
                            Ok(Self::new_from_vec(data, rows, cols))
                        } else {
                            Err(MatrixError::WorkerFailure)
                        }
                    },
                    None => Err(MatrixError::WorkerFailure),
                }
            },
        }
    }

    /// Makes the result of a multiplication out of what the tasks handed
    /// back: every element taken from the buffer of its block, if every task
    /// finished and each buffer has the size of its block.
    pub fn from_blocks(
        outcome: Option<Vec<Vec<T>>>,
        rows: usize,
        cols: usize,
        block: usize,
    ) -> (r: Result<Self, MatrixError>)
        requires
            rows >= 1,
            cols >= 1,
            block >= 1,
        ensures
            match r {
                Ok(m) => {
                    &&& outcome matches Some(parts)
                    &&& blocks_fit(nested_view(parts), rows, cols, block)
                    &&& m.wf()
                    &&& m.entries() == stitched(nested_view(parts), rows, cols, block)
                },
                Err(e) => {
                    &&& e == MatrixError::WorkerFailure
                    &&& !(outcome matches Some(parts) && blocks_fit(
                        nested_view(parts),
                        rows,
                        cols,
                        block,
                    ))
                },
            },
    {
        let parts = match outcome {
            None => {
                return Err(MatrixError::WorkerFailure);
            },
            Some(parts) => parts,
        };
        let ghost all = nested_view(parts);
        let tiles = block_grid(rows, cols, block);
        if parts.len() != tiles.len() {
            return Err(MatrixError::WorkerFailure);
        }
        let mut t: usize = 0;
        while t < tiles.len()
            invariant
                rows >= 1,
                cols >= 1,
                block >= 1,
                outcome == Some(parts),
                all == nested_view(parts),
                tiles@ == grid(rows, cols, block),
                parts@.len() == tiles@.len(),
                t <= tiles@.len(),
                forall|u: int|
                    0 <= u < t ==> (#[trigger] all[u]).len() == grid_tile(
                        rows,
                        cols,
                        block,
                        u,
                    ).height() * grid_tile(rows, cols, block, u).width(),
            decreases tiles@.len() - t,
        {
            let tile = tiles[t];
            proof {
                lemma_grid_tile_proper(rows, cols, block, t as int);
            }
            let height = tile.row_end - tile.row_start;
            let width = tile.col_end - tile.col_start;
            let held = parts[t].len();
            let fits = match height.checked_mul(width) {
                Some(size) => held == size,
                None => false,
            };
            proof {
                assert(tile == grid_tile(rows, cols, block, t as int));
                assert(all[t as int].len() == held);
                assert(height == tile.height() && width == tile.width());
            }
            if !fits {
                proof {
                    assert(all[t as int].len() != grid_tile(rows, cols, block, t as int).height()
                        * grid_tile(rows, cols, block, t as int).width());
                }
                return Err(MatrixError::WorkerFailure);
            }
            t += 1;
        }
        let per_row = chunk_size(cols, block);
        proof {
            lemma_len_fits(&tiles);
        }
        let mut data: Vec<T> = Vec::new();
        let mut i: usize = 0;
        while i < rows
            invariant
                rows >= 1,
                cols >= 1,
                block >= 1,
                all == nested_view(parts),
                tiles@ == grid(rows, cols, block),
                blocks_fit(all, rows, cols, block),
                per_row == block_count(cols as nat, block as nat),
                tiles@.len() <= usize::MAX,
                i <= rows,
                data@.len() == i * cols,
                forall|r: int, c: int|
                    0 <= r < i && 0 <= c < cols ==> #[trigger] data@[r * cols + c] == stitched(
                        all,
                        rows,
                        cols,
                        block,
                    )[r][c],
            decreases rows - i,
        {
            let mut j: usize = 0;
            while j < cols
                invariant
                    rows >= 1,
                    cols >= 1,
                    block >= 1,
                    all == nested_view(parts),
                    tiles@ == grid(rows, cols, block),
                    blocks_fit(all, rows, cols, block),
                    per_row == block_count(cols as nat, block as nat),
                    tiles@.len() <= usize::MAX,
                    i < rows,
                    j <= cols,
                    data@.len() == i * cols + j,
                    forall|r: int, c: int|
                        0 <= r < i && 0 <= c < cols ==> #[trigger] data@[r * cols + c]
                            == stitched(all, rows, cols, block)[r][c],
                    forall|c: int|
                        0 <= c < j ==> #[trigger] data@[i * cols + c] == stitched(
                            all,
                            rows,
                            cols,
                            block,
                        )[i as int][c],
                decreases cols - j,
            {
                proof {
                    lemma_grid_partitions(rows, cols, block, i as int, j as int);
                    let ti = i as int / block as int;
                    assert(0 <= ti * per_row) by (nonlinear_arith)
                        requires
                            0 <= ti,
                            0 <= per_row,
                    ;
                    vstd::arithmetic::div_mod::lemma_div_pos_is_pos(i as int, block as int);
                    vstd::arithmetic::div_mod::lemma_div_pos_is_pos(j as int, block as int);
                }
                let t = (i / block) * per_row + j / block;
                let tile = tiles[t];
                proof {
                    lemma_len_fits(&parts[t as int]);
                    assert(t == tile_of(cols, block, i as int, j as int));
                    assert(tile == grid_tile(rows, cols, block, t as int));
                    lemma_index_of(tile, i as int, j as int);
                    assert(all[t as int].len() == tile.height() * tile.width());
                }
                let p = flat_index(
                    tile.row_end - tile.row_start,
                    tile.col_end - tile.col_start,
                    i - tile.row_start,
                    j - tile.col_start,
                );
                let ghost before = data@;
                data.push(parts[t][p]);
                proof {
                    assert forall|r: int, c: int| 0 <= r < i && 0 <= c < cols implies #[trigger] data@[r
                        * cols + c] == stitched(all, rows, cols, block)[r][c] by {
                        lemma_flat_index(r, c, i as int, cols as int);
                        assert(data@[r * cols + c] == before[r * cols + c]);
                    }
                    assert forall|c: int| 0 <= c < j + 1 implies #[trigger] data@[i * cols + c]
                        == stitched(all, rows, cols, block)[i as int][c] by {
                        if c < j {
                            assert(data@[i * cols + c] == before[i * cols + c]);
                        }
                    }
                }
                j += 1;
            }
            proof {
                assert((i + 1) * cols == i * cols + cols) by (nonlinear_arith);
                assert forall|r: int, c: int| 0 <= r < i + 1 && 0 <= c < cols implies #[trigger] data@[r
                    * cols + c] == stitched(all, rows, cols, block)[r][c] by {
                    if r == i {
                        assert(data@[i * cols + c] == stitched(all, rows, cols, block)[i as int][c]);
                    }
                }
            }
            i += 1;
        }
        proof {
            lemma_len_fits(&data);
            lemma_unflatten(data@, rows as nat, cols as nat);
            assert(unflatten(data@, rows as nat, cols as nat) =~~= stitched(
                all,
                rows,
                cols,
                block,
            ));
        }
        Ok(Self::new_from_vec(data, rows, cols))
    }

    /// An elementwise operation of two buffers of this shape, each worker
    /// working on one run of consecutive positions.
    fn elementwise(&self, op: ElementOp<T>, other: &Vec<T>) -> (r: Result<Self, MatrixError>)
        requires
            self.wf(),
            is_flat(other@, row_count(self.entries()), col_count(self.entries())),
        ensures
            match r {
                Ok(m) => {
                    &&& m.wf()
                    &&& m.entries() == matrix_elementwise(
                        op,
                        self.entries(),
                        unflatten(other@, row_count(self.entries()), col_count(self.entries())),
                    )
                },
                Err(e) => e == MatrixError::WorkerFailure,
            },
    {
        proof {
            lemma_unflatten(self.data@, self.shape.0 as nat, self.shape.1 as nat);
        }
        let len = self.data.len();
        proof {
            assert(self.shape.0 * self.shape.1 >= 1) by (nonlinear_arith)
                requires
                    self.shape.0 >= 1,
                    self.shape.1 >= 1,
            ;
        }
        let size = chunk_size(len, NUM_THREADS);
        let spans = chunk_ranges(len, size);
        proof {
            assert forall|k: int| 0 <= k < spans@.len() implies (#[trigger] spans@[k]).0
                <= spans@[k].1 <= self.data@.len() by {
                lemma_chunk_spans(len, size, k);
            }
        }
        let mut parts = empty_parts::<T>(spans.len());
        let done = run_chunk_tasks(op, &self.data, other, &spans, &mut parts);
        let outcome = if done {
            Some(parts)
        } else {
            None
        };
        proof {
            if outcome is Some {
                let parts = outcome->Some_0;
                assert forall|k: int| 0 <= k < nested_view(parts).len() implies #[trigger] nested_view(
                    parts,
                )[k] == chunk_results(
                    op,
                    self.data@,
                    other@,
                    chunk_spans(len, size)[k].0 as int,
                    chunk_spans(len, size)[k].1 as int,
                ) by {
                    assert(nested_view(parts)[k] == parts@[k]@);
                }
                lemma_chunks_join(op, self.data@, other@, len, size, nested_view(parts));
            }
            lemma_elementwise_buffer(
                op,
                chunk_results(op, self.data@, other@, 0, len as int),
                self.data@,
                other@,
                self.shape.0 as nat,
                self.shape.1 as nat,
            );
        }
        Self::from_chunks(outcome, self.shape.0, self.shape.1)
    }
}

impl<T: Scalar + Send + Sync> Matrix for MultithreadMatrix<T> {
    type Elem = T;

    closed spec fn wf(&self) -> bool {
        is_flat(self.data@, self.shape.0 as nat, self.shape.1 as nat)
    }

    closed spec fn entries(&self) -> Rows<T> {
        unflatten(self.data@, self.shape.0 as nat, self.shape.1 as nat)
    }

    open spec fn ready_as_right_operand(&self) -> bool {
        true
    }

    proof fn lemma_well_shaped(&self) {
        lemma_unflatten(self.data@, self.shape.0 as nat, self.shape.1 as nat);
    }

    fn new(data: Vec<Vec<T>>) -> (r: Result<Self, MatrixError>) {
        match flatten(data) {
            Ok((buf, rows, cols)) => Ok(Self::new_from_vec(buf, rows, cols)),
            Err(e) => Err(e),
        }
    }

    fn shape(&self) -> (s: (usize, usize)) {
        proof {
            self.lemma_well_shaped();
        }
        self.shape
    }

    fn num_rows(&self) -> (n: usize) {
        proof {
            self.lemma_well_shaped();
        }
        self.shape.0
    }

    fn num_cols(&self) -> (n: usize) {
        proof {
            self.lemma_well_shaped();
        }
        self.shape.1
    }

    fn get_data(&self) -> (rows: Vec<Vec<T>>) {
        unflatten_rows(&self.data, self.shape.0, self.shape.1)
    }

    fn zeroes(rows: usize, cols: usize) -> (m: Self) {
        let data = zero_buffer::<T>(rows, cols);
        proof {
            lemma_zero_buffer::<T>(data@, rows as nat, cols as nat);
        }
        Self::new_from_vec(data, rows, cols)
    }

    fn identity(size: usize) -> (m: Self) {
        let data = identity_buffer::<T>(size);
        proof {
            lemma_identity_buffer::<T>(data@, size as nat);
        }
        Self::new_from_vec(data, size, size)
    }

    fn matrix_addition(&self, other: &Self) -> (r: Result<Self, MatrixError>) {
        proof {
            self.lemma_well_shaped();
            other.lemma_well_shaped();
        }
        if self.shape.0 != other.shape.0 || self.shape.1 != other.shape.1 {
            return Err(MatrixError::DimensionMismatch);
        }
        self.elementwise(ElementOp::Plus, &other.data)
    }

    fn matrix_subtraction(&self, other: &Self) -> (r: Result<Self, MatrixError>) {
        proof {
            self.lemma_well_shaped();
            other.lemma_well_shaped();
        }
        if self.shape.0 != other.shape.0 || self.shape.1 != other.shape.1 {
            return Err(MatrixError::DimensionMismatch);
        }
        self.elementwise(ElementOp::Minus, &other.data)
    }

    fn matrix_multiplication(&self, other: &Self) -> (r: Result<Self, MatrixError>) {
        proof {
            self.lemma_well_shaped();
            other.lemma_well_shaped();
        }
        if self.shape.1 != other.shape.0 {
            return Err(MatrixError::DimensionMismatch);
        }
        let rows = self.shape.0;
        let inner = self.shape.1;
        let cols = other.shape.1;
        let tiles = block_grid(rows, cols, BLOCK_SIZE);
        proof {
            assert forall|t: int| 0 <= t < tiles@.len() implies (#[trigger] tiles@[t]).is_proper()
                && Block::whole(rows, cols).encloses(tiles@[t]) by {
                lemma_grid_tile_proper(rows, cols, BLOCK_SIZE, t);
            }
        }
        let mut parts = empty_parts::<T>(tiles.len());
        let outcome = match run_block_tasks(
            &self.data,
            rows,
            inner,
            &other.data,
            cols,
            &tiles,
            BLOCK_SIZE,
            NUM_THREADS,
            &mut parts,
        ) {
            Ok(_) => Some(parts),
            Err(_) => None,
        };
        proof {
            if outcome is Some {
                let parts = outcome->Some_0;
                lemma_stitched_product(
                    self.entries(),
                    other.entries(),
                    nested_view(parts),
                    rows,
                    inner,
                    cols,
                    BLOCK_SIZE,
                );
            }
        }
        Self::from_blocks(outcome, rows, cols, BLOCK_SIZE)
    }

    fn scalar_multiplication(&self, scalar: T) -> (r: Result<Self, MatrixError>) {
        proof {
            self.lemma_well_shaped();
        }
        self.elementwise(ElementOp::Times(scalar), &self.data)
    }
}

/// Buffers that hold the finished elements of the product, one for every
/// block of the grid, fit the grid and are stitched into the product.
pub proof fn lemma_stitched_product<T: Scalar>(
    a: Rows<T>,
    b: Rows<T>,
    parts: Rows<T>,
    rows: usize,
    inner: usize,
    cols: usize,
    block: usize,
)
    requires
        rows >= 1,
        cols >= 1,
        block >= 1,
        row_count(a) == rows,
        row_count(b) == inner,
        col_count(b) == cols,
        parts.len() == grid_len(rows as nat, cols as nat, block as nat),
        forall|t: int|
            0 <= t < parts.len() ==> #[trigger] parts[t] == tile_values(
                a,
                b,
                grid_tile(rows, cols, block, t),
            ),
    ensures
        blocks_fit(parts, rows, cols, block),
        stitched(parts, rows, cols, block) == matrix_product(a, b),
{
    assert forall|i: int, j: int| 0 <= i < rows && 0 <= j < cols implies #[trigger] stitched(
        parts,
        rows,
        cols,
        block,
    )[i][j] == dot(a, b, i, j, inner as nat) by {
        lemma_grid_partitions(rows, cols, block, i, j);
        let t = tile_of(cols, block, i, j);
        let tile = grid_tile(rows, cols, block, t);
        lemma_index_of(tile, i, j);
        assert(parts[t] == tile_values(a, b, tile));
    }
    assert(stitched(parts, rows, cols, block) =~~= matrix_product(a, b));
}

} // verus!

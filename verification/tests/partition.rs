use rmatrix::tiling::{block_end, block_grid, chunk_ranges, chunk_size, Block};

fn block(row_start: usize, row_end: usize, col_start: usize, col_end: usize) -> Block {
    Block { row_start, row_end, col_start, col_end }
}

#[test]
fn block_end_is_cut_off_at_the_extent() {
    assert_eq!(block_end(0, 8, 20), 8);
    assert_eq!(block_end(8, 8, 20), 16);
    assert_eq!(block_end(16, 8, 20), 20);
    assert_eq!(block_end(0, 8, 8), 8);
    assert_eq!(block_end(0, 64, 5), 5);
    assert_eq!(block_end(usize::MAX - 1, usize::MAX, usize::MAX), usize::MAX);
}

#[test]
fn block_grid_lists_blocks_along_the_rows_of_blocks() {
    assert_eq!(
        block_grid(3, 5, 2),
        vec![
            block(0, 2, 0, 2),
            block(0, 2, 2, 4),
            block(0, 2, 4, 5),
            block(2, 3, 0, 2),
            block(2, 3, 2, 4),
            block(2, 3, 4, 5),
        ]
    );
    assert_eq!(block_grid(2, 2, 8), vec![block(0, 2, 0, 2)]);
    assert_eq!(block_grid(16, 8, 8), vec![block(0, 8, 0, 8), block(8, 16, 0, 8)]);
    assert_eq!(block_grid(1, 1, 1), vec![block(0, 1, 0, 1)]);
}

#[test]
fn block_grid_writes_every_output_element_exactly_once() {
    for (rows, cols, size) in
        [(1, 1, 8), (8, 8, 8), (9, 7, 8), (17, 23, 8), (16, 24, 8), (5, 40, 7), (13, 13, 1)]
    {
        let mut written = vec![vec![0u32; cols]; rows];
        for tile in block_grid(rows, cols, size) {
            assert!(tile.row_start < tile.row_end && tile.row_end <= rows);
            assert!(tile.col_start < tile.col_end && tile.col_end <= cols);
            assert!(tile.row_end - tile.row_start <= size);
            assert!(tile.col_end - tile.col_start <= size);
            for i in tile.row_start..tile.row_end {
                for j in tile.col_start..tile.col_end {
                    written[i][j] += 1;
                }
            }
        }
        for row in written {
            for count in row {
                assert_eq!(count, 1);
            }
        }
    }
}

#[test]
fn chunk_size_rounds_up() {
    assert_eq!(chunk_size(1, 16), 1);
    assert_eq!(chunk_size(16, 16), 1);
    assert_eq!(chunk_size(17, 16), 2);
    assert_eq!(chunk_size(32, 16), 2);
    assert_eq!(chunk_size(100, 16), 7);
    assert_eq!(chunk_size(5, 1), 5);
    assert_eq!(chunk_size(usize::MAX, 2), usize::MAX / 2 + 1);
}

#[test]
fn chunk_ranges_cover_the_buffer_in_order() {
    assert_eq!(chunk_ranges(4, 1), vec![(0, 1), (1, 2), (2, 3), (3, 4)]);
    assert_eq!(chunk_ranges(10, 4), vec![(0, 4), (4, 8), (8, 10)]);
    assert_eq!(chunk_ranges(8, 4), vec![(0, 4), (4, 8)]);
    assert_eq!(chunk_ranges(3, 7), vec![(0, 3)]);
    for len in [1usize, 15, 16, 17, 100, 273] {
        let spans = chunk_ranges(len, chunk_size(len, 16));
        assert!(spans.len() <= 16);
        assert_eq!(spans[0].0, 0);
        assert_eq!(spans[spans.len() - 1].1, len);
        for k in 1..spans.len() {
            assert_eq!(spans[k].0, spans[k - 1].1);
        }
    }
}

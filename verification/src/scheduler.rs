//! The row scheduler: how the image's rows are shared out among the worker
//! threads, where each worker's pixels land in the frame, and how the frame
//! is flattened into bytes.
//!
//! The frame is stored top row first. Each worker owns one contiguous block
//! of rows and nothing else, so workers never touch the same pixel.

use vstd::prelude::*;

verus! {

/// A contiguous run of rows of the frame, owned by one worker.
#[derive(Clone, Copy, Debug, PartialEq, Eq, Structural)]
pub struct RowBlock {
    /// The first row of the block, counted from the top of the frame.
    pub first_row: usize,
    /// How many rows the block holds.
    pub rows: usize,
}

/// The logical processors that the operating system offers this process.
///
/// Calls `num_cpus::get()`, which documents that it always returns at least
/// one. The count depends on the machine, so nothing more is claimed.
#[verifier::external_body]
fn available_cpus() -> (n: usize)
    ensures
        n >= 1,
{
    num_cpus::get()
}

/// The workers to start on a machine with `cpus` logical processors: one
/// processor is left to the rest of the system, but there is always a worker.
pub open spec fn workers_for_spec(cpus: usize) -> usize {
    if cpus >= 2 {
        (cpus - 1) as usize
    } else {
        1
    }
}

/// The rows that each block but the last holds.
pub open spec fn rows_per_block_spec(height: usize, workers: usize) -> int {
    height as int / workers as int + 1
}

/// The blocks tile the rows `0..height` in order: the first starts at the
/// top, each starts where the one before ends, none is empty, and the last
/// ends at the bottom.
pub open spec fn tiles(blocks: Seq<RowBlock>, height: usize) -> bool {
    &&& forall|i: int| 0 <= i < blocks.len() ==> (#[trigger] blocks[i]).rows >= 1
    &&& forall|i: int|
        0 <= i < blocks.len() - 1 ==> (#[trigger] blocks[i + 1]).first_row == blocks[i].first_row
            + blocks[i].rows
    &&& if blocks.len() == 0 {
        height == 0
    } else {
        blocks[0].first_row == 0 && blocks.last().first_row + blocks.last().rows == height
    }
}

/// Row `row` of the frame belongs to `block`.
pub open spec fn owns(block: RowBlock, row: int) -> bool {
    block.first_row <= row < block.first_row + block.rows
}

/// The position of a pixel in the frame, which is stored row by row.
pub open spec fn frame_offset(width: usize, row: int, x: int) -> int {
    row * width + x
}

pub fn workers_for(cpus: usize) -> (workers: usize)
    ensures
        workers == workers_for_spec(cpus),
        workers >= 1,
{
    if cpus >= 2 {
        cpus - 1
    } else {
        1
    }
}

/// The workers to start on this machine: `workers_for` of however many
/// processors it has.
pub fn worker_count() -> (workers: usize)
    ensures
        workers >= 1,
        exists|cpus: usize| cpus >= 1 && workers == #[trigger] workers_for_spec(cpus),
{
    let cpus = available_cpus();
    let workers = workers_for(cpus);
    assert(workers == workers_for_spec(cpus));
    workers
}

/// The rows of a full block when `height` rows are shared among `workers`.
pub fn rows_per_block(height: usize, workers: usize) -> (rows: usize)
    requires
        workers >= 1,
        height < usize::MAX,
    ensures
        rows == rows_per_block_spec(height, workers),
        rows >= 1,
        rows * workers > height,
{
    let rows: usize = height / workers + 1;
    proof {
        let q = height as int / workers as int;
        let w = workers as int;
        assert(height as int == w * q + height as int % w) by (nonlinear_arith)
            requires
                w >= 1,
                q == height as int / w,
        ;
        assert((q + 1) * w == w * q + w) by (nonlinear_arith);
    }
    rows
}

/// Shares the rows `0..height` out among at most `workers` blocks of
/// `rows_per_block(height, workers)` rows each; only the last block may be
/// shorter.
pub fn partition_rows(height: usize, workers: usize) -> (blocks: Vec<RowBlock>)
    requires
        workers >= 1,
        height < usize::MAX,
    ensures
        tiles(blocks@, height),
        blocks@.len() <= workers,
        forall|i: int|
            0 <= i < blocks@.len() ==> (#[trigger] blocks@[i]).first_row == i * rows_per_block_spec(
                height,
                workers,
            ),
        forall|i: int|
            0 <= i < blocks@.len() - 1 ==> (#[trigger] blocks@[i]).rows == rows_per_block_spec(height, workers),
        blocks@.len() > 0 ==> blocks@.last().rows <= rows_per_block_spec(height, workers),
{
    let full: usize = rows_per_block(height, workers);
    let mut blocks: Vec<RowBlock> = Vec::new();
    let mut first: usize = 0;
    while first < height
        invariant
            full == rows_per_block_spec(height, workers),
            full >= 1,
            full * workers > height,
            first <= height,
            first == blocks@.len() * full || first == height,
            blocks@.len() <= workers,
            first < height ==> blocks@.len() < workers,
            forall|i: int| 0 <= i < blocks@.len() ==> (#[trigger] blocks@[i]).rows >= 1,
            forall|i: int| 0 <= i < blocks@.len() ==> (#[trigger] blocks@[i]).first_row == i * full,
            forall|i: int| 0 <= i < blocks@.len() - 1 ==> (#[trigger] blocks@[i]).rows == full,
            first < height ==> forall|i: int| 0 <= i < blocks@.len() ==> (#[trigger] blocks@[i]).rows == full,
            forall|i: int|
                0 <= i < blocks@.len() - 1 ==> (#[trigger] blocks@[i + 1]).first_row == blocks@[i].first_row
                    + blocks@[i].rows,
            blocks@.len() > 0 ==> blocks@.last().rows <= full,
            blocks@.len() > 0 ==> blocks@[0].first_row == 0 && blocks@.last().first_row
                + blocks@.last().rows == first,
            blocks@.len() == 0 ==> first == 0,
        decreases height - first,
    {
        let left: usize = height - first;
        let rows: usize = if left < full {
            left
        } else {
            full
        };
        let ghost count = blocks@.len() as int;
        proof {
            assert(first == count * full);
            assert(count * full + full == (count + 1) * full) by (nonlinear_arith);
            if first + rows < height {
                assert(count + 1 < workers) by (nonlinear_arith)
                    requires
                        (count + 1) * full < height,
                        full * workers > height,
                        full >= 1,
                ;
            }
        }
        blocks.push(RowBlock { first_row: first, rows });
        first = first + rows;
    }
    blocks
}

/// The scene row that is drawn into row `buffer_row` of the frame: the
/// frame stores the top of the picture first, the camera counts rows from
/// the bottom.
pub fn scene_row(height: usize, buffer_row: usize) -> (row: usize)
    requires
        buffer_row < height,
    ensures
        row == height - 1 - buffer_row,
        row < height,
{
    height - 1 - buffer_row
}

/// The position, within a block's own slice of the frame, of the pixel in
/// column `x` of the block's row `y`.
pub fn block_offset(width: usize, y: usize, x: usize) -> (offset: usize)
    requires
        x < width,
        (y + 1) * width <= usize::MAX,
    ensures
        offset == frame_offset(width, y as int, x as int),
{
    proof {
        assert(y * width + x < (y + 1) * width) by (nonlinear_arith)
            requires
                x < width,
        ;
    }
    y * width + x
}

/// Lays the pixels' three channels out one after another.
pub fn flatten_pixels(pixels: &Vec<[u8; 3]>) -> (buffer: Vec<u8>)
    ensures
        buffer@.len() == 3 * pixels@.len(),
        forall|k: int|
            0 <= k < pixels@.len() ==> {
                &&& buffer@[3 * k] == (#[trigger] pixels@[k])[0]
                &&& buffer@[3 * k + 1] == pixels@[k][1]
                &&& buffer@[3 * k + 2] == pixels@[k][2]
            },
{
    let mut buffer: Vec<u8> = Vec::new();
    let mut k: usize = 0;
    while k < pixels.len()
        invariant
            k <= pixels@.len(),
            buffer@.len() == 3 * k,
            forall|m: int|
                0 <= m < k ==> {
                    &&& buffer@[3 * m] == (#[trigger] pixels@[m])[0]
                    &&& buffer@[3 * m + 1] == pixels@[m][1]
                    &&& buffer@[3 * m + 2] == pixels@[m][2]
                },
        decreases pixels@.len() - k,
    {
        let pixel = pixels[k];
        buffer.push(pixel[0]);
        buffer.push(pixel[1]);
        buffer.push(pixel[2]);
        k += 1;
    }
    buffer
}

/// Every row of the frame belongs to exactly one block of a tiling.
pub proof fn lemma_row_has_one_owner(blocks: Seq<RowBlock>, height: usize, row: int)
    requires
        tiles(blocks, height),
        0 <= row < height,
    ensures
        exists|i: int| 0 <= i < blocks.len() && owns(#[trigger] blocks[i], row),
        forall|i: int, j: int|
            0 <= i < blocks.len() && 0 <= j < blocks.len() && owns(blocks[i], row) && owns(blocks[j], row)
                ==> i == j,
{
    lemma_blocks_ascend(blocks, height);
    let i = find_owner(blocks, height, row, 0);
    assert(owns(blocks[i], row));
    assert forall|a: int, b: int|
        0 <= a < blocks.len() && 0 <= b < blocks.len() && owns(blocks[a], row) && owns(
            blocks[b],
            row,
        ) implies a == b by {
        if a < b {
            assert(starts_by(blocks, a, b));
        } else if b < a {
            assert(starts_by(blocks, b, a));
        }
    }
}

/// Block `b` starts no earlier than block `a` ends.
pub open spec fn starts_by(blocks: Seq<RowBlock>, a: int, b: int) -> bool {
    blocks[a].first_row + blocks[a].rows <= blocks[b].first_row
}

proof fn lemma_blocks_ascend(blocks: Seq<RowBlock>, height: usize)
    requires
        tiles(blocks, height),
    ensures
        forall|a: int, b: int| 0 <= a < b < blocks.len() ==> #[trigger] starts_by(blocks, a, b),
{
    assert forall|a: int, b: int| 0 <= a < b < blocks.len() implies #[trigger] starts_by(blocks, a, b) by {
        lemma_ascend_step(blocks, height, a, b);
    }
}

proof fn lemma_ascend_step(blocks: Seq<RowBlock>, height: usize, a: int, b: int)
    requires
        tiles(blocks, height),
        0 <= a < b < blocks.len(),
    ensures
        starts_by(blocks, a, b),
    decreases b - a,
{
    if b == a + 1 {
        assert(blocks[a + 1].first_row == blocks[a].first_row + blocks[a].rows);
    } else {
        lemma_ascend_step(blocks, height, a, b - 1);
        assert(blocks[(b - 1) + 1].first_row == blocks[b - 1].first_row + blocks[b - 1].rows);
    }
}

/// Walks the tiling from block `from` to the block that owns `row`.
proof fn find_owner(blocks: Seq<RowBlock>, height: usize, row: int, from: int) -> (i: int)
    requires
        tiles(blocks, height),
        0 <= row < height,
        0 <= from < blocks.len(),
        blocks[from].first_row <= row,
    ensures
        0 <= i < blocks.len(),
        owns(blocks[i], row),
    decreases blocks.len() - from,
{
    if row < blocks[from].first_row + blocks[from].rows {
        from
    } else {
        if from == blocks.len() - 1 {
            assert(blocks.last() == blocks[from]);
            assert(false);
        }
        assert(blocks[from + 1].first_row == blocks[from].first_row + blocks[from].rows);
        find_owner(blocks, height, row, from + 1)
    }
}

/// A pixel lands at the same place in the frame however the rows are shared
/// out: its offset inside its block's slice, moved by the rows above the
/// block, is its offset in the whole frame.
pub proof fn lemma_offset_independent_of_blocks(block: RowBlock, width: usize, row: int, x: int)
    requires
        owns(block, row),
        0 <= x < width,
    ensures
        frame_offset(width, block.first_row as int, 0) + frame_offset(width, row - block.first_row, x)
            == frame_offset(width, row, x),
{
    assert(block.first_row * width + (row - block.first_row) * width == row * width) by (nonlinear_arith);
}

/// Turning the frame upside down is its own inverse, so distinct frame rows
/// draw distinct scene rows and every scene row is drawn.
pub proof fn lemma_scene_row_is_involution(height: usize, row: int)
    requires
        0 <= row < height,
    ensures
        0 <= height - 1 - row < height,
        height - 1 - (height - 1 - row) == row,
{
}

} // verus!

//! Grid computations over bit buffers of `width * height` cells, row-major.
use crate::bits::{bits_of, get_bit, set_bit};
use crate::life::{
    alive_neighbors, cell_index, lemma_cell_index, lemma_wrap_at_after, lemma_wrap_before,
    next_generation, next_state,
};
use fixedbitset::FixedBitSet;
use vstd::prelude::*;

verus! {

/// The index of the cell at `(row, column)` in a grid `width` cells wide.
pub(crate) fn get_cell_index(width: u32, height: u32, row: u32, column: u32) -> (r: usize)
    requires
        width * height <= u32::MAX,
        row < height,
        column < width,
    ensures
        r == cell_index(width as int, row as int, column as int),
        r < width * height,
{
    proof {
        lemma_cell_index(width as int, height as int, row as int, column as int);
    }
    (row * width + column) as usize
}

/// 1 where the cell at `(row, column)` is alive, else 0.
fn alive_count_at(cells: &FixedBitSet, width: u32, height: u32, row: u32, column: u32) -> (r: u8)
    requires
        width * height <= u32::MAX,
        bits_of(*cells).len() == width * height,
        row < height,
        column < width,
    ensures
        r == (if bits_of(*cells)[cell_index(width as int, row as int, column as int)] {
            1int
        } else {
            0int
        }),
{
    let index = get_cell_index(width, height, row, column);
    if get_bit(cells, index) {
        1
    } else {
        0
    }
}

/// Number of live cells among the eight round `(row, column)`, wrapping over
/// the edges.
pub(crate) fn get_alive_neighbor_count(
    cells: &FixedBitSet,
    width: u32,
    height: u32,
    row: u32,
    column: u32,
) -> (r: u8)
    requires
        width * height <= u32::MAX,
        bits_of(*cells).len() == width * height,
        row < height,
        column < width,
    ensures
        r == alive_neighbors(bits_of(*cells), width as int, height as int, row as int, column as int),
{
    let up = if row == 0 { height - 1 } else { row - 1 };
    let down = if row + 1 == height { 0 } else { row + 1 };
    let left = if column == 0 { width - 1 } else { column - 1 };
    let right = if column + 1 == width { 0 } else { column + 1 };
    proof {
        lemma_wrap_before(row as int, height as int);
        lemma_wrap_at_after(row as int, height as int);
        lemma_wrap_before(column as int, width as int);
        lemma_wrap_at_after(column as int, width as int);
    }
    alive_count_at(cells, width, height, up, left) + alive_count_at(cells, width, height, up, column)
        + alive_count_at(cells, width, height, up, right) + alive_count_at(cells, width, height, row, left)
        + alive_count_at(cells, width, height, row, right) + alive_count_at(cells, width, height, down, left)
        + alive_count_at(cells, width, height, down, column) + alive_count_at(
        cells,
        width,
        height,
        down,
        right,
    )
}

/// Writes into `next` the generation that follows `cells`, cell by cell in
/// row-major order, reading `cells` only.
pub(crate) fn write_next_generation(cells: &FixedBitSet, next: &mut FixedBitSet, width: u32, height: u32)
    requires
        width * height <= u32::MAX,
        bits_of(*cells).len() == width * height,
        bits_of(*old(next)).len() == width * height,
    ensures
        bits_of(*final(next)) == next_generation(bits_of(*cells), width as int, height as int),
{
    let ghost source = bits_of(*cells);
    let ghost generation = next_generation(source, width as int, height as int);
    assert(generation.len() == width * height);
    let mut row: u32 = 0;
    while row < height
        invariant
            width * height <= u32::MAX,
            bits_of(*cells) == source,
            source.len() == width * height,
            generation == next_generation(source, width as int, height as int),
            generation.len() == width * height,
            bits_of(*next).len() == width * height,
            row <= height,
            forall|i: int| 0 <= i < row * width ==> #[trigger] bits_of(*next)[i] == generation[i],
        decreases height - row,
    {
        let mut column: u32 = 0;
        while column < width
            invariant
                width * height <= u32::MAX,
                bits_of(*cells) == source,
                source.len() == width * height,
            source.len() == width * height,
                generation == next_generation(source, width as int, height as int),
                generation.len() == width * height,
                bits_of(*next).len() == width * height,
                row < height,
                column <= width,
                forall|i: int|
                    0 <= i < row * width + column ==> #[trigger] bits_of(*next)[i] == generation[i],
            decreases width - column,
        {
            let index = get_cell_index(width, height, row, column);
            let cell = get_bit(cells, index);
            let live_neighbor_count = get_alive_neighbor_count(cells, width, height, row, column);
            proof {
                lemma_cell_index(width as int, height as int, row as int, column as int);
            }
            let alive = if cell {
                live_neighbor_count == 2 || live_neighbor_count == 3
            } else {
                live_neighbor_count == 3
            };
            assert(generation[index as int] == next_state(
                source[index as int],
                alive_neighbors(source, width as int, height as int, row as int, column as int),
            ));
            set_bit(next, index, alive);
            column += 1;
        }
        assert(row * width + width == (row + 1) * width) by (nonlinear_arith);
        row += 1;
    }
    assert(row * width == width * height) by (nonlinear_arith)
        requires
            row == height,
    ;
    assert(bits_of(*next) =~= generation);
}

} // verus!

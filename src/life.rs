//! The rules of the game, stated over a grid of `width * height` cells held
//! row-major in a sequence, with rows and columns wrapping round.
use vstd::arithmetic::div_mod::{
    lemma_fundamental_div_mod_converse_div, lemma_fundamental_div_mod_converse_mod, lemma_mod_bound,
};
use vstd::prelude::*;

verus! {

/// Position of the cell at `(row, column)`.
pub open spec fn cell_index(width: int, row: int, column: int) -> int {
    row * width + column
}

/// 1 where the cell at `(row, column)`, both taken modulo the grid's size, is
/// alive, else 0.
pub open spec fn alive_at(cells: Seq<bool>, width: int, height: int, row: int, column: int) -> int {
    if cells[cell_index(width, row % height, column % width)] {
        1
    } else {
        0
    }
}

/// Number of live cells among the eight that surround `(row, column)`.
pub open spec fn alive_neighbors(cells: Seq<bool>, width: int, height: int, row: int, column: int) -> int {
    alive_at(cells, width, height, row - 1, column - 1)
        + alive_at(cells, width, height, row - 1, column)
        + alive_at(cells, width, height, row - 1, column + 1)
        + alive_at(cells, width, height, row, column - 1)
        + alive_at(cells, width, height, row, column + 1)
        + alive_at(cells, width, height, row + 1, column - 1)
        + alive_at(cells, width, height, row + 1, column)
        + alive_at(cells, width, height, row + 1, column + 1)
}

/// Whether a cell lives in the next generation: a live cell with two or three
/// live neighbours stays alive, a dead cell with exactly three comes alive,
/// every other cell is dead.
pub open spec fn next_state(alive: bool, neighbors: int) -> bool {
    if alive {
        neighbors == 2 || neighbors == 3
    } else {
        neighbors == 3
    }
}

/// The generation that follows `cells`.
pub open spec fn next_generation(cells: Seq<bool>, width: int, height: int) -> Seq<bool> {
    Seq::new(
        (width * height) as nat,
        |i: int|
            next_state(cells[i], alive_neighbors(cells, width, height, i / width, i % width)),
    )
}

/// Every cell dead.
pub open spec fn all_dead(cells: Seq<bool>) -> bool {
    forall|i: int| 0 <= i < cells.len() ==> !#[trigger] cells[i]
}

/// A cell inside the grid has its index inside the grid, and the index gives
/// the cell back.
pub proof fn lemma_cell_index(width: int, height: int, row: int, column: int)
    requires
        0 <= row < height,
        0 <= column < width,
    ensures
        0 <= cell_index(width, row, column) < width * height,
        cell_index(width, row, column) / width == row,
        cell_index(width, row, column) % width == column,
{
    assert(0 <= row * width + column < width * height) by (nonlinear_arith)
        requires
            0 <= row < height,
            0 <= column < width,
    ;
    lemma_fundamental_div_mod_converse_div(cell_index(width, row, column), width, row, column);
    lemma_fundamental_div_mod_converse_mod(cell_index(width, row, column), width, row, column);
}

/// An index inside the grid is that of a cell inside the grid.
pub proof fn lemma_index_cell(width: int, height: int, i: int)
    requires
        0 < width,
        0 <= i < width * height,
    ensures
        0 <= i / width < height,
        0 <= i % width < width,
        cell_index(width, i / width, i % width) == i,
{
    assert(0 <= i / width < height && 0 <= i % width < width && (i / width) * width + i % width == i)
        by (nonlinear_arith)
        requires
            0 < width,
            0 <= i < width * height,
    ;
}

/// The row or column before `x` on a wrapping axis of length `n`.
pub proof fn lemma_wrap_before(x: int, n: int)
    requires
        0 <= x < n,
    ensures
        (x - 1) % n == if x == 0 { n - 1 } else { x - 1 },
{
    if x == 0 {
        lemma_fundamental_div_mod_converse_mod(x - 1, n, -1, n - 1);
    } else {
        lemma_fundamental_div_mod_converse_mod(x - 1, n, 0, x - 1);
    }
}

/// The row or column of `x` itself and the one after it on a wrapping axis of
/// length `n`.
pub proof fn lemma_wrap_at_after(x: int, n: int)
    requires
        0 <= x < n,
    ensures
        x % n == x,
        (x + 1) % n == if x + 1 == n { 0 } else { x + 1 },
{
    lemma_fundamental_div_mod_converse_mod(x, n, 0, x);
    if x + 1 == n {
        lemma_fundamental_div_mod_converse_mod(x + 1, n, 1, 0);
    } else {
        lemma_fundamental_div_mod_converse_mod(x + 1, n, 0, x + 1);
    }
}

/// The grid after `n` generations.
pub open spec fn generations(cells: Seq<bool>, width: int, height: int, n: nat) -> Seq<bool>
    decreases n,
{
    if n == 0 {
        cells
    } else {
        next_generation(generations(cells, width, height, (n - 1) as nat), width, height)
    }
}

/// Every cell dead, `len` of them.
pub open spec fn dead_cells(len: int) -> Seq<bool> {
    Seq::new(len as nat, |i: int| false)
}

/// Whether `v` is `first` or the row (or column) after it, on an axis of
/// length `n` that wraps round.
pub open spec fn in_pair(v: int, first: int, n: int) -> bool {
    v == first || v == (first + 1) % n
}

/// Whether the live cells of `cells` are exactly the 2 x 2 block whose top
/// left cell is `(row, column)`.
pub open spec fn is_block(cells: Seq<bool>, width: int, height: int, row: int, column: int) -> bool {
    &&& cells.len() == width * height
    &&& forall|i: int|
        0 <= i < cells.len() ==> #[trigger] cells[i] == (in_pair(i / width, row, height) && in_pair(
            i % width,
            column,
            width,
        ))
}

/// The cell that `alive_at` reads lies inside the grid.
proof fn lemma_alive_at(cells: Seq<bool>, width: int, height: int, row: int, column: int)
    requires
        0 < width,
        0 < height,
    ensures
        0 <= row % height < height,
        0 <= column % width < width,
        0 <= cell_index(width, row % height, column % width) < width * height,
        cell_index(width, row % height, column % width) / width == row % height,
        cell_index(width, row % height, column % width) % width == column % width,
{
    lemma_mod_bound(row, height);
    lemma_mod_bound(column, width);
    lemma_cell_index(width, height, row % height, column % width);
}

/// A grid with no live cell has none in the next generation either.
pub proof fn lemma_empty_stays_empty(cells: Seq<bool>, width: int, height: int)
    requires
        0 <= width,
        0 <= height,
        cells.len() == width * height,
        all_dead(cells),
    ensures
        all_dead(next_generation(cells, width, height)),
        next_generation(cells, width, height) == cells,
{
    let next = next_generation(cells, width, height);
    assert(0 <= width * height) by (nonlinear_arith)
        requires
            0 <= width,
            0 <= height,
    ;
    assert forall|i: int| 0 <= i < next.len() implies !#[trigger] next[i] by {
        assert(0 < width) by (nonlinear_arith)
            requires
                0 <= width,
                0 <= i < width * height,
        ;
        lemma_index_cell(width, height, i);
        let (row, column) = (i / width, i % width);
        lemma_alive_at(cells, width, height, row - 1, column - 1);
        lemma_alive_at(cells, width, height, row - 1, column);
        lemma_alive_at(cells, width, height, row - 1, column + 1);
        lemma_alive_at(cells, width, height, row, column - 1);
        lemma_alive_at(cells, width, height, row, column + 1);
        lemma_alive_at(cells, width, height, row + 1, column - 1);
        lemma_alive_at(cells, width, height, row + 1, column);
        lemma_alive_at(cells, width, height, row + 1, column + 1);
    }
    assert(next =~= cells);
}

/// On a grid of `width * height` cells, the neighbour up and to the left of
/// `(0, 0)` is the bottom right cell `(height - 1, width - 1)`.
pub proof fn lemma_corner_wraps(cells: Seq<bool>, width: int, height: int)
    requires
        0 < width,
        0 < height,
    ensures
        alive_at(cells, width, height, 0 - 1, 0 - 1) == if cells[cell_index(width, height - 1, width - 1)] {
            1int
        } else {
            0int
        },
{
    lemma_wrap_before(0, height);
    lemma_wrap_before(0, width);
}

/// A 2 x 2 block with dead cells all round it, on a grid of at least 4 x 4,
/// is the same in the next generation.
pub proof fn lemma_block_is_still(cells: Seq<bool>, width: int, height: int, row: int, column: int)
    requires
        4 <= width,
        4 <= height,
        0 <= row < height,
        0 <= column < width,
        is_block(cells, width, height, row, column),
    ensures
        next_generation(cells, width, height) == cells,
{
    let next = next_generation(cells, width, height);
    lemma_wrap_at_after(row, height);
    lemma_wrap_at_after(column, width);
    assert forall|i: int| 0 <= i < next.len() implies #[trigger] next[i] == cells[i] by {
        lemma_index_cell(width, height, i);
        let (x, y) = (i / width, i % width);
        lemma_wrap_before(x, height);
        lemma_wrap_at_after(x, height);
        lemma_wrap_before(y, width);
        lemma_wrap_at_after(y, width);
        lemma_alive_at(cells, width, height, x - 1, y - 1);
        lemma_alive_at(cells, width, height, x - 1, y);
        lemma_alive_at(cells, width, height, x - 1, y + 1);
        lemma_alive_at(cells, width, height, x, y - 1);
        lemma_alive_at(cells, width, height, x, y + 1);
        lemma_alive_at(cells, width, height, x + 1, y - 1);
        lemma_alive_at(cells, width, height, x + 1, y);
        lemma_alive_at(cells, width, height, x + 1, y + 1);
        let rows = |d: int| in_pair((x + d) % height, row, height);
        let columns = |d: int| in_pair((y + d) % width, column, width);
        assert forall|dx: int, dy: int|
            -1 <= dx <= 1 && -1 <= dy <= 1 implies #[trigger] alive_at(cells, width, height, x + dx, y + dy)
            == if rows(dx) && columns(dy) {
            1int
        } else {
            0int
        } by {
            lemma_alive_at(cells, width, height, x + dx, y + dy);
        }
        assert(cells[i] == (rows(0) && columns(0))) by {
            assert(x % height == x && y % width == y);
        }
        assert(alive_at(cells, width, height, x - 1, y - 1) == alive_at(cells, width, height, x + -1, y + -1));
        assert(alive_at(cells, width, height, x - 1, y) == alive_at(cells, width, height, x + -1, y + 0));
        assert(alive_at(cells, width, height, x - 1, y + 1) == alive_at(cells, width, height, x + -1, y + 1));
        assert(alive_at(cells, width, height, x, y - 1) == alive_at(cells, width, height, x + 0, y + -1));
        assert(alive_at(cells, width, height, x, y + 1) == alive_at(cells, width, height, x + 0, y + 1));
        assert(alive_at(cells, width, height, x + 1, y - 1) == alive_at(cells, width, height, x + 1, y + -1));
        assert(alive_at(cells, width, height, x + 1, y) == alive_at(cells, width, height, x + 1, y + 0));
    }
    assert(next =~= cells);
}

/// A 2 x 2 block with dead cells all round it, on a grid of at least 4 x 4,
/// stays as it is for any number of generations.
pub proof fn lemma_block_is_still_forever(
    cells: Seq<bool>,
    width: int,
    height: int,
    row: int,
    column: int,
    n: nat,
)
    requires
        4 <= width,
        4 <= height,
        0 <= row < height,
        0 <= column < width,
        is_block(cells, width, height, row, column),
    ensures
        generations(cells, width, height, n) == cells,
    decreases n,
{
    if n > 0 {
        lemma_block_is_still_forever(cells, width, height, row, column, (n - 1) as nat);
        lemma_block_is_still(cells, width, height, row, column);
    }
}

} // verus!

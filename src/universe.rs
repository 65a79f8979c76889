//! A Game of Life grid with a single buffer, replaced at every generation.
//!
//! Cells are addressed by `(row, column)`, row-major: cell `(row, column)` is
//! bit `row * width + column`. A grid of width or height zero has no cells.
use crate::bits::{bit_blocks, bits_of, get_bit, new_bits, set_bit};
use crate::error::SimulationError;
use crate::grid::{get_cell_index, write_next_generation};
use crate::life::{cell_index, dead_cells, lemma_cell_index, next_generation};
use fixedbitset::FixedBitSet;
use vstd::prelude::*;

verus! {

/// Whether every listed `(row, column)` lies inside a grid of `width * height` cells.
pub open spec fn all_in_grid(width: int, height: int, coords: Seq<(u32, u32)>) -> bool {
    forall|k: int| 0 <= k < coords.len() ==> #[trigger] coords[k].0 < height && coords[k].1 < width
}

/// Whether the cell at `index` is one of those listed.
pub open spec fn is_listed(width: int, coords: Seq<(u32, u32)>, index: int) -> bool {
    exists|k: int|
        0 <= k < coords.len() && #[trigger] cell_index(width, coords[k].0 as int, coords[k].1 as int)
            == index
}

/// `cells` with every listed cell set to `enabled`.
pub open spec fn with_cells_set(cells: Seq<bool>, width: int, coords: Seq<(u32, u32)>, enabled: bool) -> Seq<bool> {
    Seq::new(cells.len(), |i: int| if is_listed(width, coords, i) { enabled } else { cells[i] })
}

/// Conway's Game of Life on a toroidal grid, one buffer.
pub struct Universe {
    /// Width in cells.
    width: u32,
    /// Height in cells.
    height: u32,
    /// The cells, one bit each.
    cells: FixedBitSet,
}

impl Universe {
    /// Width in cells.
    pub closed spec fn spec_width(&self) -> int {
        self.width as int
    }

    /// Height in cells.
    pub closed spec fn spec_height(&self) -> int {
        self.height as int
    }

    /// The cells, row-major, `true` for alive.
    pub closed spec fn spec_cells(&self) -> Seq<bool> {
        bits_of(self.cells)
    }

    /// The buffer holds one bit per cell.
    pub closed spec fn well_formed(&self) -> bool {
        &&& self.width * self.height <= u32::MAX
        &&& bits_of(self.cells).len() == self.width * self.height
    }

    /// Toggling a cell twice gives the grid back as it was, the first toggle
    /// setting the cell to the opposite of its state.
    pub proof fn lemma_toggle_twice(cells: Seq<bool>, width: int, height: int, row: int, column: int)
        requires
            cells.len() == width * height,
            0 <= row < height,
            0 <= column < width,
        ensures
            ({
                let index = cell_index(width, row, column);
                let once = cells.update(index, !cells[index]);
                &&& once[index] == !cells[index]
                &&& once.update(index, !once[index]) == cells
            }),
    {
        let index = cell_index(width, row, column);
        lemma_cell_index(width, height, row, column);
        assert(cells.update(index, !cells[index]).update(index, cells[index]) =~= cells);
    }

    /// A grid of `width * height` dead cells.
    pub fn new(width: u32, height: u32) -> (r: Universe)
        requires
            width * height <= u32::MAX,
        ensures
            r.well_formed(),
            r.spec_width() == width,
            r.spec_height() == height,
            r.spec_cells() == dead_cells(width * height),
    {
        let cell_count = (width * height) as usize;
        let cells = new_bits(cell_count);
        Universe { width, height, cells }
    }

    /// Seeds the grid: cell `i` (row-major) becomes alive exactly where
    /// `alive[i]` holds. The caller draws one sample per cell.
    pub fn initialize_cells(&mut self, alive: &[bool])
        requires
            old(self).well_formed(),
            alive@.len() == old(self).spec_width() * old(self).spec_height(),
        ensures
            final(self).well_formed(),
            final(self).spec_width() == old(self).spec_width(),
            final(self).spec_height() == old(self).spec_height(),
            final(self).spec_cells() == alive@,
    {
        let cell_count = (self.width * self.height) as usize;
        let ghost width = self.width;
        let ghost height = self.height;
        let mut i: usize = 0;
        while i < cell_count
            invariant
                self.well_formed(),
                self.width == width,
                self.height == height,
                cell_count == width * height,
                alive@.len() == cell_count,
                i <= cell_count,
                forall|j: int| 0 <= j < i ==> #[trigger] self.spec_cells()[j] == alive@[j],
            decreases cell_count - i,
        {
            let ghost before = self.spec_cells();
            set_bit(&mut self.cells, i, alive[i]);
            assert(forall|j: int| 0 <= j < i ==> self.spec_cells()[j] == before[j]);
            i += 1;
        }
        assert(self.spec_cells() =~= alive@);
    }

    /// Flips the cell at `(row, column)`; refuses a cell outside the grid and
    /// then changes nothing.
    pub fn toggle_cell(&mut self, row: u32, column: u32) -> (r: Result<(), SimulationError>)
        requires
            old(self).well_formed(),
        ensures
            final(self).well_formed(),
            final(self).spec_width() == old(self).spec_width(),
            final(self).spec_height() == old(self).spec_height(),
            row < old(self).spec_height() && column < old(self).spec_width() ==> {
                let index = cell_index(old(self).spec_width(), row as int, column as int);
                &&& r is Ok
                &&& final(self).spec_cells() == old(self).spec_cells().update(index, !old(self).spec_cells()[index])
            },
            !(row < old(self).spec_height() && column < old(self).spec_width()) ==> {
                &&& r == Err::<(), SimulationError>(SimulationError::IndexOutOfBounds)
                &&& final(self).spec_cells() == old(self).spec_cells()
            },
    {
        if row >= self.height || column >= self.width {
            return Err(SimulationError::IndexOutOfBounds);
        }
        let index = get_cell_index(self.width, self.height, row, column);
        let alive = get_bit(&self.cells, index);
        set_bit(&mut self.cells, index, !alive);
        Ok(())
    }

    /// Advances one generation.
    pub fn tick(&mut self)
        requires
            old(self).well_formed(),
        ensures
            final(self).well_formed(),
            final(self).spec_width() == old(self).spec_width(),
            final(self).spec_height() == old(self).spec_height(),
            final(self).spec_cells() == next_generation(
                old(self).spec_cells(),
                old(self).spec_width(),
                old(self).spec_height(),
            ),
    {
        let mut next_cells = new_bits((self.width * self.height) as usize);
        write_next_generation(&self.cells, &mut next_cells, self.width, self.height);
        self.cells = next_cells;
    }

    /// The cell blocks, for a renderer that reads them in place: cell `i` is
    /// bit `i % 32`, least significant first, of block `i / 32`. Their address
    /// is the start of the cell memory.
    pub fn get_cells_as_ptr(&self) -> (r: &[u32])
        ensures
            r@.len() == (self.spec_cells().len() + 31) / 32,
            forall|i: int|
                0 <= i < self.spec_cells().len() ==> (#[trigger] self.spec_cells()[i] == ((r@[i / 32] >> ((i
                    % 32) as u32)) & 1u32 == 1u32)),
    {
        bit_blocks(&self.cells)
    }

    /// The cells, shared, so that they cannot be written through.
    pub fn get_cells(&self) -> (r: &FixedBitSet)
        ensures
            bits_of(*r) == self.spec_cells(),
    {
        &self.cells
    }

    /// Sets every listed `(row, column)` to `enabled`. Refuses the whole list,
    /// changing nothing, when one of them lies outside the grid.
    pub fn set_cells(&mut self, cells: &[(u32, u32)], enabled: bool) -> (r: Result<(), SimulationError>)
        requires
            old(self).well_formed(),
        ensures
            final(self).well_formed(),
            final(self).spec_width() == old(self).spec_width(),
            final(self).spec_height() == old(self).spec_height(),
            all_in_grid(old(self).spec_width(), old(self).spec_height(), cells@) ==> {
                &&& r is Ok
                &&& final(self).spec_cells() == with_cells_set(
                    old(self).spec_cells(),
                    old(self).spec_width(),
                    cells@,
                    enabled,
                )
            },
            !all_in_grid(old(self).spec_width(), old(self).spec_height(), cells@) ==> {
                &&& r == Err::<(), SimulationError>(SimulationError::IndexOutOfBounds)
                &&& final(self).spec_cells() == old(self).spec_cells()
            },
    {
        let mut k: usize = 0;
        while k < cells.len()
            invariant
                *self == *old(self),
                self.well_formed(),
                k <= cells@.len(),
                forall|j: int| 0 <= j < k ==> #[trigger] cells@[j].0 < self.height && cells@[j].1 < self.width,
            decreases cells@.len() - k,
        {
            let (row, column) = cells[k];
            if row >= self.height || column >= self.width {
                return Err(SimulationError::IndexOutOfBounds);
            }
            k += 1;
        }
        let ghost start = self.spec_cells();
        let ghost width = self.width;
        let ghost height = self.height;
        let mut k: usize = 0;
        while k < cells.len()
            invariant
                self.well_formed(),
                self.width == width,
                self.height == height,
                start.len() == width * height,
                all_in_grid(width as int, height as int, cells@),
                k <= cells@.len(),
                self.spec_cells() == with_cells_set(start, width as int, cells@.take(k as int), enabled),
            decreases cells@.len() - k,
        {
            let (row, column) = cells[k];
            let index = get_cell_index(self.width, self.height, row, column);
            set_bit(&mut self.cells, index, enabled);
            proof {
                let before = cells@.take(k as int);
                let after = cells@.take(k + 1);
                assert forall|i: int| 0 <= i < start.len() implies is_listed(width as int, after, i) == (
                is_listed(width as int, before, i) || i == index) by {
                    if is_listed(width as int, before, i) {
                        let j = choose|j: int|
                            0 <= j < before.len() && #[trigger] cell_index(
                                width as int,
                                before[j].0 as int,
                                before[j].1 as int,
                            ) == i;
                        assert(after[j] == before[j]);
                    }
                    if i == index {
                        assert(after[k as int] == cells@[k as int]);
                    }
                    if is_listed(width as int, after, i) {
                        let j = choose|j: int|
                            0 <= j < after.len() && #[trigger] cell_index(
                                width as int,
                                after[j].0 as int,
                                after[j].1 as int,
                            ) == i;
                        if j < k {
                            assert(before[j] == after[j]);
                        }
                    }
                }
                assert(self.spec_cells() =~= with_cells_set(start, width as int, after, enabled));
            }
            k += 1;
        }
        assert(cells@.take(cells@.len() as int) =~= cells@);
        Ok(())
    }
}

} // verus!

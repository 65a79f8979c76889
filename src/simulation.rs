//! A Game of Life grid with two buffers whose roles swap at every generation.
//!
//! Cells are addressed by `(row, column)`, row-major: cell `(row, column)` is
//! bit `row * width + column`. A grid of width or height zero has no cells: it
//! refuses every coordinate, and a tick leaves it as it is.
use crate::bits::{bit_blocks, bits_of, get_bit, new_bits, set_bit};
use crate::error::SimulationError;
use crate::grid::{get_cell_index, write_next_generation};
use crate::life::{all_dead, cell_index, dead_cells, lemma_cell_index, next_generation};
use fixedbitset::FixedBitSet;
use vstd::prelude::*;

verus! {

/// Conway's Game of Life on a toroidal grid.
///
/// Edits (seeding, clearing, toggling) go to the current buffer. A tick makes
/// the current buffer the previous one and computes the next generation from
/// it into the other buffer, which becomes current. Until the first tick both
/// roles rest on the same buffer.
pub struct Simulation {
    /// Width in cells.
    width: u32,
    /// Height in cells.
    height: u32,
    /// Buffer 0.
    first_buffer: FixedBitSet,
    /// Buffer 1.
    second_buffer: FixedBitSet,
    /// Which buffer holds the previous generation.
    previous_buffer_index: usize,
    /// Which buffer holds the current generation and takes edits.
    current_buffer_index: usize,
}

impl Simulation {
    /// Width in cells.
    pub closed spec fn spec_width(&self) -> int {
        self.width as int
    }

    /// Height in cells.
    pub closed spec fn spec_height(&self) -> int {
        self.height as int
    }

    closed spec fn buffer(&self, k: usize) -> Seq<bool> {
        if k == 0 {
            bits_of(self.first_buffer)
        } else {
            bits_of(self.second_buffer)
        }
    }

    /// The current generation: the last one computed, with the edits made since.
    pub closed spec fn current_cells(&self) -> Seq<bool> {
        self.buffer(self.current_buffer_index)
    }

    /// The previous generation, which a tick read and a toggle reads.
    pub closed spec fn previous_cells(&self) -> Seq<bool> {
        self.buffer(self.previous_buffer_index)
    }

    /// The current generation where `current` holds, else the previous one.
    pub open spec fn cells_of(&self, current: bool) -> Seq<bool> {
        if current {
            self.current_cells()
        } else {
            self.previous_cells()
        }
    }

    /// Whether both roles rest on one buffer, as they do until the first tick.
    pub closed spec fn buffers_shared(&self) -> bool {
        self.previous_buffer_index == self.current_buffer_index
    }

    /// Both buffers hold one bit per cell and the roles name buffers 0 and 1.
    pub closed spec fn well_formed(&self) -> bool {
        &&& self.width * self.height <= u32::MAX
        &&& bits_of(self.first_buffer).len() == self.width * self.height
        &&& bits_of(self.second_buffer).len() == self.width * self.height
        &&& self.previous_buffer_index < 2
        &&& self.current_buffer_index < 2
    }

    /// After an edit of the current buffer to `cells`: the previous generation
    /// follows it where both roles share a buffer, and stays otherwise.
    pub open spec fn edited(old_sim: &Self, new_sim: &Self, cells: Seq<bool>) -> bool {
        &&& new_sim.well_formed()
        &&& new_sim.spec_width() == old_sim.spec_width()
        &&& new_sim.spec_height() == old_sim.spec_height()
        &&& new_sim.buffers_shared() == old_sim.buffers_shared()
        &&& new_sim.current_cells() == cells
        &&& new_sim.previous_cells() == if old_sim.buffers_shared() {
            cells
        } else {
            old_sim.previous_cells()
        }
    }

    /// The current generation with the cell at `(row, column)` set to the
    /// opposite of its state in the previous generation.
    pub open spec fn toggled_cells(&self, row: int, column: int) -> Seq<bool> {
        let index = cell_index(self.spec_width(), row, column);
        self.current_cells().update(index, !self.previous_cells()[index])
    }

    /// Clearing a second time leaves the grid as the first clearing did.
    pub proof fn lemma_clear_twice(first: &Self, once: &Self, twice: &Self)
        requires
            first.well_formed(),
            Self::edited(first, once, dead_cells(first.spec_width() * first.spec_height())),
            Self::edited(once, twice, dead_cells(once.spec_width() * once.spec_height())),
        ensures
            twice.current_cells() == once.current_cells(),
            twice.previous_cells() == once.previous_cells(),
            twice.buffers_shared() == once.buffers_shared(),
            all_dead(twice.current_cells()),
    {
    }

    /// Before the first tick, toggling a cell sets it to the opposite of its
    /// state, and toggling it again gives the grid back as it was.
    pub proof fn lemma_toggle_twice(first: &Self, once: &Self, twice: &Self, row: int, column: int)
        requires
            first.well_formed(),
            first.buffers_shared(),
            0 <= row < first.spec_height(),
            0 <= column < first.spec_width(),
            Self::edited(first, once, first.toggled_cells(row, column)),
            Self::edited(once, twice, once.toggled_cells(row, column)),
        ensures
            once.current_cells()[cell_index(first.spec_width(), row, column)] == !first.current_cells()[cell_index(
                first.spec_width(),
                row,
                column,
            )],
            twice.current_cells() == first.current_cells(),
            twice.previous_cells() == first.previous_cells(),
    {
        lemma_cell_index(first.spec_width(), first.spec_height(), row, column);
        assert(twice.current_cells() =~= first.current_cells());
    }

    /// A grid of `width * height` dead cells.
    pub fn new(width: u32, height: u32) -> (r: Simulation)
        requires
            width * height <= u32::MAX,
        ensures
            r.well_formed(),
            r.spec_width() == width,
            r.spec_height() == height,
            r.buffers_shared(),
            r.current_cells() == dead_cells(width * height),
            r.previous_cells() == dead_cells(width * height),
    {
        let cell_count = (width * height) as usize;
        let first_buffer = new_bits(cell_count);
        let second_buffer = new_bits(cell_count);
        Simulation {
            width,
            height,
            first_buffer,
            second_buffer,
            previous_buffer_index: 0,
            current_buffer_index: 0,
        }
    }

    /// Seeds the current buffer: cell `i` (row-major) becomes alive exactly
    /// where `alive[i]` holds. The caller draws one sample per cell.
    pub fn initialize_cells(&mut self, alive: &[bool])
        requires
            old(self).well_formed(),
            alive@.len() == old(self).spec_width() * old(self).spec_height(),
        ensures
            Self::edited(old(self), final(self), alive@),
    {
        let ghost start = *self;
        let cell_count = (self.width * self.height) as usize;
        let mut i: usize = 0;
        while i < cell_count
            invariant
                cell_count == start.spec_width() * start.spec_height(),
                alive@.len() == cell_count,
                i <= cell_count,
                self.current_cells().len() == cell_count,
                self.current_cells().subrange(0, i as int) == alive@.subrange(0, i as int),
                Self::edited(&start, self, self.current_cells()),
            decreases cell_count - i,
        {
            self.set_current(i, alive[i]);
            assert(self.current_cells().subrange(0, i + 1) =~= alive@.subrange(0, i + 1));
            i += 1;
        }
        assert(self.current_cells() =~= self.current_cells().subrange(0, cell_count as int));
        assert(alive@ =~= alive@.subrange(0, cell_count as int));
    }

    /// Sets the current buffer's cell at `(row, column)` to the opposite of
    /// its state in the previous generation; refuses a cell outside the grid
    /// and then changes nothing.
    pub fn toggle_cell(&mut self, row: u32, column: u32) -> (r: Result<(), SimulationError>)
        requires
            old(self).well_formed(),
        ensures
            row < old(self).spec_height() && column < old(self).spec_width() ==> {
                let index = cell_index(old(self).spec_width(), row as int, column as int);
                &&& r is Ok
                &&& Self::edited(old(self), final(self), old(self).toggled_cells(row as int, column as int))
            },
            !(row < old(self).spec_height() && column < old(self).spec_width()) ==> {
                &&& r == Err::<(), SimulationError>(SimulationError::IndexOutOfBounds)
                &&& *final(self) == *old(self)
            },
    {
        if row >= self.height || column >= self.width {
            return Err(SimulationError::IndexOutOfBounds);
        }
        let cell_index = self.get_cell_index(row, column);
        let alive = self.previous_at(cell_index);
        self.set_current(cell_index, !alive);
        Ok(())
    }

    /// Sets every cell of the current buffer dead.
    pub fn clear_cells(&mut self)
        requires
            old(self).well_formed(),
        ensures
            Self::edited(old(self), final(self), dead_cells(old(self).spec_width() * old(self).spec_height())),
    {
        let ghost start = *self;
        let ghost dead = dead_cells(start.spec_width() * start.spec_height());
        let cell_count = (self.width * self.height) as usize;
        let mut i: usize = 0;
        while i < cell_count
            invariant
                cell_count == start.spec_width() * start.spec_height(),
                dead.len() == cell_count,
                i <= cell_count,
                self.current_cells().len() == cell_count,
                forall|j: int| 0 <= j < i ==> !#[trigger] self.current_cells()[j],
                Self::edited(&start, self, self.current_cells()),
            decreases cell_count - i,
        {
            self.set_current(i, false);
            i += 1;
        }
        assert(self.current_cells() =~= dead);
    }

    /// The current buffer where `get_current_cells` holds, else the previous
    /// one; shared, so it cannot be written through.
    pub fn get_cells(&self, get_current_cells: bool) -> (r: &FixedBitSet)
        requires
            self.well_formed(),
        ensures
            bits_of(*r) == self.cells_of(get_current_cells),
    {
        let index = if get_current_cells {
            self.current_buffer_index
        } else {
            self.previous_buffer_index
        };
        if index == 0 {
            &self.first_buffer
        } else {
            &self.second_buffer
        }
    }

    /// The blocks of the buffer that `get_cells` gives, for a renderer that
    /// reads them in place: cell `i` is bit `i % 32`, least significant first,
    /// of block `i / 32`. Their address is the start of the cell memory.
    pub fn get_cells_as_ptr(&self, get_current_cells: bool) -> (r: &[u32])
        requires
            self.well_formed(),
        ensures
            r@.len() == (self.cells_of(get_current_cells).len() + 31) / 32,
            forall|i: int|
                0 <= i < self.cells_of(get_current_cells).len() ==> (#[trigger] self.cells_of(
                    get_current_cells,
                )[i] == ((r@[i / 32] >> ((i % 32) as u32)) & 1u32 == 1u32)),
    {
        bit_blocks(self.get_cells(get_current_cells))
    }

    /// Writes `enabled` at `index` of the current buffer.
    fn set_current(&mut self, index: usize, enabled: bool)
        requires
            old(self).well_formed(),
            index < old(self).spec_width() * old(self).spec_height(),
        ensures
            Self::edited(old(self), final(self), old(self).current_cells().update(index as int, enabled)),
            final(self).previous_buffer_index == old(self).previous_buffer_index,
            final(self).current_buffer_index == old(self).current_buffer_index,
    {
        if self.current_buffer_index == 0 {
            set_bit(&mut self.first_buffer, index, enabled);
        } else {
            set_bit(&mut self.second_buffer, index, enabled);
        }
    }

    /// Whether the cell at `index` is alive in the previous generation.
    fn previous_at(&self, index: usize) -> (r: bool)
        requires
            self.well_formed(),
            index < self.spec_width() * self.spec_height(),
        ensures
            r == self.previous_cells()[index as int],
    {
        if self.previous_buffer_index == 0 {
            get_bit(&self.first_buffer, index)
        } else {
            get_bit(&self.second_buffer, index)
        }
    }

    /// The index of the cell at `(row, column)`.
    fn get_cell_index(&self, row: u32, column: u32) -> (r: usize)
        requires
            self.well_formed(),
            row < self.spec_height(),
            column < self.spec_width(),
        ensures
            r == cell_index(self.spec_width(), row as int, column as int),
            r < self.spec_width() * self.spec_height(),
    {
        get_cell_index(self.width, self.height, row, column)
    }

    /// Advances one generation: the current buffer becomes the previous one,
    /// and the other buffer receives the generation that follows it.
    pub fn tick(&mut self)
        requires
            old(self).well_formed(),
        ensures
            final(self).well_formed(),
            final(self).spec_width() == old(self).spec_width(),
            final(self).spec_height() == old(self).spec_height(),
            !final(self).buffers_shared(),
            final(self).previous_cells() == old(self).current_cells(),
            final(self).current_cells() == next_generation(
                old(self).current_cells(),
                old(self).spec_width(),
                old(self).spec_height(),
            ),
    {
        self.previous_buffer_index = self.current_buffer_index;
        self.current_buffer_index = (self.current_buffer_index + 1) % 2;
        if self.current_buffer_index == 0 {
            write_next_generation(&self.second_buffer, &mut self.first_buffer, self.width, self.height);
        } else {
            write_next_generation(&self.first_buffer, &mut self.second_buffer, self.width, self.height);
        }
    }
}

} // verus!

//! What the grid operations can refuse.
use vstd::prelude::*;

verus! {

/// A grid operation addressed a cell outside the grid.
#[derive(Clone, Copy, Debug, PartialEq, Eq, Structural)]
pub enum SimulationError {
    /// The row is not below the height, or the column not below the width.
    IndexOutOfBounds,
}

} // verus!

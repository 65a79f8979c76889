//! Conway's Game of Life on a toroidal grid, kept in fixed-size bit buffers.
//!
//! [`Simulation`] keeps two buffers and swaps their roles at each generation;
//! [`Universe`] keeps one and replaces it. Both count neighbours across the
//! edges, and both follow the rules stated in [`life`]. [`InstanceManager`]
//! keeps simulations under names.
mod bits;
pub mod error;
pub mod instance_manager;
mod grid;
pub mod life;
pub mod simulation;
pub mod universe;

pub use error::SimulationError;
pub use instance_manager::InstanceManager;
pub use simulation::Simulation;
pub use universe::Universe;

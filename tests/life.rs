use rust_life::{Simulation, SimulationError, Universe};

fn live_cells(cells: &fixedbitset::FixedBitSet, width: u32) -> Vec<(u32, u32)> {
    cells.ones().map(|i| (i as u32 / width, i as u32 % width)).collect()
}

fn input_spaceship() -> Universe {
    let mut universe = Universe::new(6, 6);
    universe.set_cells(&[(1, 2), (2, 3), (3, 1), (3, 2), (3, 3)], true).unwrap();
    universe
}

fn expected_spaceship() -> Universe {
    let mut universe = Universe::new(6, 6);
    universe.set_cells(&[(2, 1), (2, 3), (3, 2), (3, 3), (4, 2)], true).unwrap();
    universe
}

#[test]
fn tick_advances_universe_as_expected() {
    let mut input_universe = input_spaceship();
    input_universe.tick();

    let expected_universe = expected_spaceship();

    assert_eq!(&input_universe.get_cells(), &expected_universe.get_cells());
}

#[test]
fn simulation_glider_advances() {
    let mut simulation = Simulation::new(6, 6);
    for (row, column) in [(1, 2), (2, 3), (3, 1), (3, 2), (3, 3)] {
        simulation.toggle_cell(row, column).unwrap();
    }
    simulation.tick();
    assert_eq!(
        live_cells(simulation.get_cells(true), 6),
        vec![(2, 1), (2, 3), (3, 2), (3, 3), (4, 2)]
    );
    assert_eq!(
        live_cells(simulation.get_cells(false), 6),
        vec![(1, 2), (2, 3), (3, 1), (3, 2), (3, 3)]
    );
}

#[test]
fn block_is_still_life() {
    let block = vec![(2, 2), (2, 3), (3, 2), (3, 3)];
    let mut universe = Universe::new(6, 5);
    universe.set_cells(&block, true).unwrap();
    let mut simulation = Simulation::new(6, 5);
    for &(row, column) in &block {
        simulation.toggle_cell(row, column).unwrap();
    }
    for _ in 0..5 {
        universe.tick();
        simulation.tick();
        assert_eq!(live_cells(universe.get_cells(), 6), block);
        assert_eq!(live_cells(simulation.get_cells(true), 6), block);
    }
}

#[test]
fn block_across_the_corner_is_still_life() {
    let block = vec![(0, 0), (0, 4), (3, 0), (3, 4)];
    let mut universe = Universe::new(5, 4);
    universe.set_cells(&block, true).unwrap();
    universe.tick();
    universe.tick();
    assert_eq!(live_cells(universe.get_cells(), 5), block);
}

#[test]
fn empty_grid_stays_empty() {
    for (width, height) in [(1, 1), (3, 7), (8, 2)] {
        let mut universe = Universe::new(width, height);
        let mut simulation = Simulation::new(width, height);
        universe.tick();
        simulation.tick();
        simulation.tick();
        assert_eq!(universe.get_cells().count_ones(..), 0);
        assert_eq!(simulation.get_cells(true).count_ones(..), 0);
        assert_eq!(simulation.get_cells(true).len(), (width * height) as usize);
    }
}

#[test]
fn neighbours_wrap_round_the_corner() {
    // (0, 0) is dead; its three live neighbours lie only across the edges.
    let mut universe = Universe::new(5, 4);
    universe.set_cells(&[(3, 4), (3, 0), (0, 4)], true).unwrap();
    universe.tick();
    assert!(universe.get_cells().contains(0));
}

#[test]
fn corner_cell_alone_with_its_diagonal_dies() {
    let mut universe = Universe::new(5, 5);
    universe.set_cells(&[(0, 0), (4, 4)], true).unwrap();
    universe.tick();
    assert_eq!(universe.get_cells().count_ones(..), 0);
}

#[test]
fn blinker_oscillates() {
    let mut simulation = Simulation::new(5, 5);
    for (row, column) in [(2, 1), (2, 2), (2, 3)] {
        simulation.toggle_cell(row, column).unwrap();
    }
    simulation.tick();
    assert_eq!(live_cells(simulation.get_cells(true), 5), vec![(1, 2), (2, 2), (3, 2)]);
    simulation.tick();
    assert_eq!(live_cells(simulation.get_cells(true), 5), vec![(2, 1), (2, 2), (2, 3)]);
}

#[test]
fn overcrowded_cell_dies_and_crowded_dead_cell_stays_dead() {
    // The centre of the cross has four live neighbours.
    let mut universe = Universe::new(7, 7);
    universe.set_cells(&[(1, 1), (1, 3), (2, 2), (3, 1), (3, 3)], true).unwrap();
    universe.tick();
    assert!(!universe.get_cells().contains(16));

    // (2, 2) is dead with four live neighbours.
    let mut universe = Universe::new(7, 7);
    universe.set_cells(&[(1, 1), (1, 2), (1, 3), (2, 1)], true).unwrap();
    universe.tick();
    assert!(!universe.get_cells().contains(16));
}

#[test]
fn clear_twice_is_clear_once() {
    let mut simulation = Simulation::new(4, 4);
    simulation.initialize_cells(&[true; 16]);
    simulation.clear_cells();
    let once = simulation.get_cells(true).clone();
    simulation.clear_cells();
    assert_eq!(simulation.get_cells(true), &once);
    assert_eq!(once.count_ones(..), 0);
}

#[test]
fn clear_after_tick_leaves_previous_generation() {
    let mut simulation = Simulation::new(4, 4);
    simulation.toggle_cell(1, 1).unwrap();
    simulation.tick();
    simulation.toggle_cell(2, 2).unwrap();
    simulation.clear_cells();
    assert_eq!(simulation.get_cells(true).count_ones(..), 0);
    assert_eq!(live_cells(simulation.get_cells(false), 4), vec![(1, 1)]);
}

#[test]
fn toggle_twice_restores() {
    let mut simulation = Simulation::new(3, 4);
    simulation.toggle_cell(2, 1).unwrap();
    assert!(simulation.get_cells(true).contains(7));
    simulation.toggle_cell(2, 1).unwrap();
    assert_eq!(simulation.get_cells(true).count_ones(..), 0);

    let mut universe = Universe::new(3, 4);
    universe.toggle_cell(2, 1).unwrap();
    assert!(universe.get_cells().contains(7));
    universe.toggle_cell(2, 1).unwrap();
    assert_eq!(universe.get_cells().count_ones(..), 0);
}

#[test]
fn toggle_after_tick_negates_previous_generation() {
    let mut simulation = Simulation::new(3, 3);
    simulation.tick();
    simulation.toggle_cell(1, 1).unwrap();
    assert!(simulation.get_cells(true).contains(4));
    simulation.toggle_cell(1, 1).unwrap();
    assert!(simulation.get_cells(true).contains(4));
    assert!(!simulation.get_cells(false).contains(4));
}

#[test]
fn toggle_outside_the_grid_is_refused() {
    let mut simulation = Simulation::new(3, 2);
    assert_eq!(simulation.toggle_cell(2, 0), Err(SimulationError::IndexOutOfBounds));
    assert_eq!(simulation.toggle_cell(0, 3), Err(SimulationError::IndexOutOfBounds));
    assert_eq!(simulation.get_cells(true).count_ones(..), 0);

    let mut universe = Universe::new(3, 2);
    assert_eq!(universe.toggle_cell(1, 5), Err(SimulationError::IndexOutOfBounds));
    assert_eq!(universe.get_cells().count_ones(..), 0);
}

#[test]
fn set_cells_outside_the_grid_changes_nothing() {
    let mut universe = Universe::new(3, 3);
    assert_eq!(universe.set_cells(&[(0, 0), (3, 1)], true), Err(SimulationError::IndexOutOfBounds));
    assert_eq!(universe.get_cells().count_ones(..), 0);
    universe.set_cells(&[(0, 0), (2, 2), (0, 0)], true).unwrap();
    universe.set_cells(&[(0, 0)], false).unwrap();
    assert_eq!(live_cells(universe.get_cells(), 3), vec![(2, 2)]);
}

#[test]
fn zero_sized_grid_has_no_cells() {
    let mut simulation = Simulation::new(0, 4);
    simulation.tick();
    simulation.clear_cells();
    assert_eq!(simulation.toggle_cell(0, 0), Err(SimulationError::IndexOutOfBounds));
    assert_eq!(simulation.get_cells(true).len(), 0);
    assert!(simulation.get_cells_as_ptr(true).is_empty());
}

#[test]
fn initialize_cells_follows_the_samples() {
    let alive = [true, false, false, true, true, false];
    let mut simulation = Simulation::new(3, 2);
    simulation.initialize_cells(&alive);
    assert_eq!(live_cells(simulation.get_cells(true), 3), vec![(0, 0), (1, 0), (1, 1)]);
    let mut universe = Universe::new(2, 3);
    universe.initialize_cells(&alive);
    assert_eq!(live_cells(universe.get_cells(), 2), vec![(0, 0), (1, 1), (2, 0)]);
}

#[test]
fn cell_blocks_are_low_bit_first() {
    let mut simulation = Simulation::new(10, 4);
    simulation.toggle_cell(3, 3).unwrap();
    simulation.toggle_cell(0, 1).unwrap();
    assert_eq!(simulation.get_cells_as_ptr(true), &[1u32 << 1, 1u32 << 1]);
    let mut universe = Universe::new(10, 4);
    universe.toggle_cell(3, 9).unwrap();
    assert_eq!(universe.get_cells_as_ptr(), &[0u32, 1u32 << 7]);
}

use gol::grid::next_cell;
use gol::grid::Grid;
use gol::universe::Universe;
use gol::Cell;
use gol::Error;

#[test]
fn new_zero_width_fails() {
    assert!(matches!(Universe::new(0, 7), Err(Error::InvalidDimension)));
    assert!(matches!(Universe::new(0, 1), Err(Error::InvalidDimension)));
    assert!(matches!(Grid::new(0, 9), Err(Error::InvalidDimension)));
}

#[test]
fn new_zero_height_fails() {
    assert!(matches!(Universe::new(7, 0), Err(Error::InvalidDimension)));
    assert!(matches!(Universe::new(1, 0), Err(Error::InvalidDimension)));
    assert!(matches!(Universe::new(0, 0), Err(Error::InvalidDimension)));
}

#[test]
fn new_universe_is_all_dead() {
    let u = Universe::new(4, 3).unwrap();
    assert_eq!(u.width(), 4);
    assert_eq!(u.height(), 3);
    assert_eq!(u.generation(), 0);
    let cells = u.cells();
    assert_eq!(cells.len(), 12);
    for c in cells.iter() {
        assert_eq!(*c, Cell::Dead);
    }
}

#[test]
fn from_cells_keeps_the_seed() {
    let seed = vec![
        Cell::Alive,
        Cell::Dead,
        Cell::Dead,
        Cell::Alive,
        Cell::Dead,
        Cell::Alive,
    ];
    let u = Universe::from_cells(3, 2, seed.clone()).unwrap();
    assert_eq!(u.cells(), &seed);
}

#[test]
fn from_cells_zero_dimension_fails() {
    assert!(matches!(
        Universe::from_cells(0, 0, Vec::new()),
        Err(Error::InvalidDimension)
    ));
}

#[test]
fn set_cell_is_read_back_row_major() {
    let mut u = Universe::new(3, 3).unwrap();
    u.set_cell(2, 1, Cell::Alive);
    assert_eq!(u.cell_at(2, 1), Cell::Alive);
    assert_eq!(u.cells()[1 * 3 + 2], Cell::Alive);
    assert_eq!(u.cell_at(1, 2), Cell::Dead);
}

#[test]
fn cell_at_wraps_negative_and_overflowing_coordinates() {
    let mut u = Universe::new(3, 3).unwrap();
    u.set_cell(2, 2, Cell::Alive);
    assert_eq!(u.cell_at(2, 2), Cell::Alive);
    assert_eq!(u.cell_at(-1, -1), Cell::Alive);
    assert_eq!(u.cell_at(5, 5), Cell::Alive);
    assert_eq!(u.cell_at(-4, -4), Cell::Alive);
    assert_eq!(u.cell_at(-1, 2), Cell::Alive);
    assert_eq!(u.cell_at(0, 0), Cell::Dead);
    assert_eq!(u.cell_at(3, 3), Cell::Dead);
}

#[test]
fn corner_cells_are_diagonal_neighbors_through_the_torus() {
    let mut g = Grid::new(4, 4).unwrap();
    g.set_cell(3, 3, Cell::Alive);
    assert_eq!(g.alive_neighbors(0, 0), 1);
    let mut g2 = Grid::new(4, 4).unwrap();
    g2.set_cell(0, 0, Cell::Alive);
    assert_eq!(g2.alive_neighbors(3, 3), 1);
    assert_eq!(g2.alive_neighbors(0, 3), 1);
    assert_eq!(g2.alive_neighbors(3, 0), 1);
    assert_eq!(g2.alive_neighbors(1, 1), 1);
    assert_eq!(g2.alive_neighbors(2, 2), 0);
}

#[test]
fn edge_cells_wrap_to_the_opposite_edge() {
    let mut g = Grid::new(5, 5).unwrap();
    g.set_cell(4, 2, Cell::Alive);
    assert_eq!(g.alive_neighbors(0, 2), 1);
    assert_eq!(g.alive_neighbors(0, 1), 1);
    assert_eq!(g.alive_neighbors(0, 3), 1);
    assert_eq!(g.alive_neighbors(0, 0), 0);
    let mut g2 = Grid::new(5, 5).unwrap();
    g2.set_cell(2, 4, Cell::Alive);
    assert_eq!(g2.alive_neighbors(2, 0), 1);
}

#[test]
fn rule_table_is_b3_s23() {
    for n in 0u8..=8 {
        let survives = n == 2 || n == 3;
        let born = n == 3;
        assert_eq!(
            next_cell(Cell::Alive, n),
            if survives { Cell::Alive } else { Cell::Dead }
        );
        assert_eq!(
            next_cell(Cell::Dead, n),
            if born { Cell::Alive } else { Cell::Dead }
        );
    }
}

#[test]
fn generation_counter_increments_once_per_tick() {
    let mut u = Universe::new(3, 3).unwrap();
    assert_eq!(u.generation(), 0);
    u.tick();
    assert_eq!(u.generation(), 1);
    u.tick();
    u.tick();
    assert_eq!(u.generation(), 3);
}

#[test]
fn snapshots_without_a_tick_are_identical() {
    let mut u = Universe::new(4, 4).unwrap();
    u.set_cell(1, 1, Cell::Alive);
    u.set_cell(2, 2, Cell::Alive);
    let first = u.cells().clone();
    let second = u.cells().clone();
    assert_eq!(first, second);
}

#[test]
fn advance_is_deterministic_across_copies() {
    let seed = vec![
        Cell::Alive,
        Cell::Alive,
        Cell::Dead,
        Cell::Dead,
        Cell::Alive,
        Cell::Dead,
        Cell::Alive,
        Cell::Dead,
        Cell::Alive,
    ];
    let mut u1 = Universe::from_cells(3, 3, seed.clone()).unwrap();
    let mut u2 = Universe::from_cells(3, 3, seed).unwrap();
    u1.tick();
    u2.tick();
    assert_eq!(u1.cells(), u2.cells());
    u1.tick();
    u2.tick();
    assert_eq!(u1.cells(), u2.cells());
}

#[test]
fn lone_cell_on_1x1_torus_sees_itself_eight_times_and_dies() {
    let mut u = Universe::from_cells(1, 1, vec![Cell::Alive]).unwrap();
    let g = Grid::from_cells(1, 1, vec![Cell::Alive]).unwrap();
    assert_eq!(g.alive_neighbors(0, 0), 8);
    u.tick();
    assert_eq!(u.cells()[0], Cell::Dead);
}

#[test]
fn full_2x2_torus_overcrowds_and_dies() {
    let seed = vec![Cell::Alive; 4];
    let g = Grid::from_cells(2, 2, seed.clone()).unwrap();
    assert_eq!(g.alive_neighbors(0, 0), 8);
    let mut u = Universe::from_cells(2, 2, seed).unwrap();
    u.tick();
    for c in u.cells().iter() {
        assert_eq!(*c, Cell::Dead);
    }
}

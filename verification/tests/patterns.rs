use gol::universe::Universe;
use gol::Cell;

fn universe_with(width: usize, height: usize, alive: &[(usize, usize)]) -> Universe {
    let mut u = Universe::new(width, height).unwrap();
    for &(x, y) in alive {
        u.set_cell(x, y, Cell::Alive);
    }
    u
}

fn alive_coords(u: &Universe) -> Vec<(usize, usize)> {
    let w = u.width();
    let mut out = Vec::new();
    for (i, c) in u.cells().iter().enumerate() {
        if *c == Cell::Alive {
            out.push((i % w, i / w));
        }
    }
    out
}

#[test]
fn block_is_a_still_life() {
    let mut u = universe_with(4, 4, &[(1, 1), (2, 1), (1, 2), (2, 2)]);
    let before = u.cells().clone();
    u.tick();
    assert_eq!(u.cells(), &before);
}

#[test]
fn block_in_the_corner_is_still_a_still_life() {
    let mut u = universe_with(5, 4, &[(0, 0), (1, 0), (0, 1), (1, 1)]);
    let before = u.cells().clone();
    u.tick();
    assert_eq!(u.cells(), &before);
}

#[test]
fn blinker_turns_vertical_then_back() {
    let mut u = universe_with(5, 5, &[(1, 2), (2, 2), (3, 2)]);
    u.tick();
    let mut vertical = alive_coords(&u);
    vertical.sort();
    assert_eq!(vertical, vec![(2, 1), (2, 2), (2, 3)]);
    u.tick();
    let mut horizontal = alive_coords(&u);
    horizontal.sort();
    assert_eq!(horizontal, vec![(1, 2), (2, 2), (3, 2)]);
}

#[test]
fn glider_translates_by_one_one_after_four_ticks() {
    // The standard glider, with its bounding box at (2, 2).
    let glider = [(3, 2), (4, 3), (2, 4), (3, 4), (4, 4)];
    let mut u = universe_with(10, 10, &glider);
    for _ in 0..4 {
        u.tick();
    }
    let mut moved = alive_coords(&u);
    moved.sort();
    let mut expected: Vec<(usize, usize)> =
        glider.iter().map(|&(x, y)| (x + 1, y + 1)).collect();
    expected.sort();
    assert_eq!(moved, expected);
}

#[test]
fn lone_live_cell_dies_of_isolation() {
    let mut u = universe_with(5, 5, &[(2, 2)]);
    u.tick();
    assert_eq!(alive_coords(&u), Vec::new());
}

//! Mathematical model of the simulation: cell states, the grid as a
//! sequence with toroidal addressing, the neighbor count, and the B3/S23
//! generation rule. All executable code in this crate is specified against
//! these definitions.

use vstd::prelude::*;
use vstd::arithmetic::div_mod::lemma_fundamental_div_mod;
use vstd::arithmetic::div_mod::lemma_fundamental_div_mod_converse_div;
use vstd::arithmetic::div_mod::lemma_fundamental_div_mod_converse_mod;
use vstd::arithmetic::div_mod::lemma_mod_division_less_than_divisor;
use vstd::arithmetic::div_mod::lemma_mod_multiples_vanish;
use vstd::arithmetic::div_mod::lemma_small_mod;

verus! {

/// The state of one grid position.
#[derive(Copy, Clone, Debug, PartialEq, Eq, Structural)]
pub enum Cell {
    Alive,
    Dead,
}

/// The one construction-time failure: a zero width or height.
#[derive(Copy, Clone, Debug, PartialEq, Eq, Structural)]
pub enum Error {
    InvalidDimension,
}

/// Abstract value of a grid: its dimensions and the row-major sequence of
/// cells, where the cell at (x, y) sits at index `y * width + x`.
#[verifier::ext_equal]
pub ghost struct GridView {
    pub width: int,
    pub height: int,
    pub cells: Seq<Cell>,
}

/// Toroidal normalization of a coordinate: the representative of `i`
/// modulo `n` in `[0, n)`.
pub open spec fn wrap(i: int, n: int) -> int {
    i % n
}

/// A well-formed grid has positive dimensions and exactly one cell per
/// coordinate. The size bounds are machine limits: the cell buffer must be
/// addressable by `usize`, and coordinates must be expressible as `i64`.
pub open spec fn grid_wf(g: GridView) -> bool {
    &&& 0 < g.width
    &&& 0 < g.height
    &&& g.cells.len() == g.width * g.height
    &&& g.width * g.height <= i64::MAX as int
    &&& g.width * g.height <= usize::MAX as int
}

/// Row-major index of the wrapped coordinate (x, y).
pub open spec fn cell_index(g: GridView, x: int, y: int) -> int {
    wrap(y, g.height) * g.width + wrap(x, g.width)
}

/// The cell at (x, y), with both coordinates normalized toroidally, so any
/// integer coordinate addresses some cell.
pub open spec fn cell_at(g: GridView, x: int, y: int) -> Cell {
    g.cells[cell_index(g, x, y)]
}

/// 1 for a live cell, 0 for a dead one.
pub open spec fn live_count(c: Cell) -> int {
    if c == Cell::Alive {
        1
    } else {
        0
    }
}

/// Number of live cells among the 8 neighbors of (x, y), each resolved
/// through toroidal addressing.
pub open spec fn alive_neighbors(g: GridView, x: int, y: int) -> int {
    live_count(cell_at(g, x - 1, y - 1)) + live_count(cell_at(g, x, y - 1)) + live_count(
        cell_at(g, x + 1, y - 1),
    ) + live_count(cell_at(g, x - 1, y)) + live_count(cell_at(g, x + 1, y)) + live_count(
        cell_at(g, x - 1, y + 1),
    ) + live_count(cell_at(g, x, y + 1)) + live_count(cell_at(g, x + 1, y + 1))
}

/// The B3/S23 rule: a live cell survives with 2 or 3 live neighbors, a
/// dead cell is born with exactly 3; every other cell is dead.
pub open spec fn rule(c: Cell, n: int) -> Cell {
    match c {
        Cell::Alive => if n == 2 || n == 3 {
            Cell::Alive
        } else {
            Cell::Dead
        },
        Cell::Dead => if n == 3 {
            Cell::Alive
        } else {
            Cell::Dead
        },
    }
}

/// One generation step: a grid of the same dimensions where every cell is
/// the rule applied to its old state and old neighbor count. The result is
/// a function of the input grid alone.
pub open spec fn advance(g: GridView) -> GridView {
    GridView {
        width: g.width,
        height: g.height,
        cells: Seq::new(
            (g.width * g.height) as nat,
            |i: int|
                rule(
                    cell_at(g, i % g.width, i / g.width),
                    alive_neighbors(g, i % g.width, i / g.width),
                ),
        ),
    }
}

/// A wrapped coordinate lies in `[0, n)`, and wrapping an in-range
/// coordinate changes nothing.
pub proof fn lemma_wrap_range(i: int, n: int)
    requires
        0 < n,
    ensures
        0 <= wrap(i, n) < n,
        0 <= i < n ==> wrap(i, n) == i,
{
    lemma_mod_division_less_than_divisor(i, n);
    if 0 <= i < n {
        lemma_small_mod(i as nat, n as nat);
    }
}

/// Wrapping is periodic: shifting a coordinate by a full width or height
/// lands on the same cell.
pub proof fn lemma_wrap_periodic(i: int, n: int)
    requires
        0 < n,
    ensures
        wrap(i + n, n) == wrap(i, n),
        wrap(i - n, n) == wrap(i, n),
{
    lemma_mod_multiples_vanish(1, i, n);
    lemma_mod_multiples_vanish(-1, i, n);
}

/// Normalizing a coordinate before shifting it by an offset gives the same
/// wrapped coordinate as shifting first.
pub proof fn lemma_wrap_shift(i: int, d: int, n: int)
    requires
        0 < n,
    ensures
        wrap(wrap(i, n) + d, n) == wrap(i + d, n),
{
    lemma_fundamental_div_mod(i, n);
    assert(n * (-(i / n)) == -(n * (i / n))) by (nonlinear_arith);
    assert(wrap(i, n) + d == n * (-(i / n)) + (i + d));
    lemma_mod_multiples_vanish(-(i / n), i + d, n);
}

/// Row-major indexing is a bijection between in-range coordinates and
/// indices below `width * height`.
pub proof fn lemma_index_bijection(w: int, h: int, x: int, y: int)
    requires
        0 < w,
        0 < h,
        0 <= x < w,
        0 <= y < h,
    ensures
        0 <= y * w + x < w * h,
        (y * w + x) % w == x,
        (y * w + x) / w == y,
{
    assert(0 <= y * w + x < w * h) by (nonlinear_arith)
        requires
            0 < w,
            0 < h,
            0 <= x < w,
            0 <= y < h,
    ;
    lemma_fundamental_div_mod_converse_mod(y * w + x, w, y, x);
    lemma_fundamental_div_mod_converse_div(y * w + x, w, y, x);
}

/// For in-range coordinates the cell index is exactly `y * width + x`, and
/// it addresses a cell of the grid.
pub proof fn lemma_cell_index_in_range(g: GridView, x: int, y: int)
    requires
        grid_wf(g),
    ensures
        0 <= cell_index(g, x, y) < g.cells.len(),
        0 <= x < g.width && 0 <= y < g.height ==> cell_index(g, x, y) == y * g.width + x,
{
    lemma_wrap_range(x, g.width);
    lemma_wrap_range(y, g.height);
    lemma_index_bijection(g.width, g.height, wrap(x, g.width), wrap(y, g.height));
}

/// What `advance` puts at an in-range coordinate: the rule applied to that
/// cell's old state and old neighbor count.
pub proof fn lemma_advance_cell(g: GridView, x: int, y: int)
    requires
        grid_wf(g),
        0 <= x < g.width,
        0 <= y < g.height,
    ensures
        advance(g).cells[y * g.width + x] == rule(cell_at(g, x, y), alive_neighbors(g, x, y)),
{
    lemma_index_bijection(g.width, g.height, x, y);
}

} // verus!

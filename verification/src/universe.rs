//! The Universe facade: owns the current grid and a generation counter,
//! advances one generation per tick, and exposes read-only snapshots of a
//! single consistent generation.

use vstd::prelude::*;
use crate::grid::Grid;
use crate::model::{advance, cell_at, grid_wf, Cell, Error, GridView};

verus! {

/// Owner of the current generation. Exactly one grid exists at a time;
/// each tick atomically replaces it with the freshly computed next
/// generation and bumps the generation counter.
pub struct Universe {
    grid: Grid,
    generation: u64,
}

impl View for Universe {
    type V = GridView;

    closed spec fn view(&self) -> GridView {
        self.grid@
    }
}

impl Universe {
    /// Every universe handed out by the constructors satisfies this, and
    /// every method preserves it.
    pub open spec fn wf(&self) -> bool {
        grid_wf(self@)
    }

    /// Number of ticks applied since construction.
    pub closed spec fn spec_generation(&self) -> u64 {
        self.generation
    }

    /// Builds a universe over an all-dead grid of the given dimensions;
    /// fails with `InvalidDimension` exactly when a dimension is zero.
    pub fn new(width: usize, height: usize) -> (r: Result<Universe, Error>)
        requires
            width * height <= usize::MAX,
            width * height <= i64::MAX,
        ensures
            match r {
                Ok(u) => {
                    &&& 0 < width
                    &&& 0 < height
                    &&& u.wf()
                    &&& u@.width == width
                    &&& u@.height == height
                    &&& forall|i: int| 0 <= i < u@.cells.len() ==> u@.cells[i] == Cell::Dead
                    &&& u.spec_generation() == 0
                },
                Err(e) => e == Error::InvalidDimension && (width == 0 || height == 0),
            },
    {
        match Grid::new(width, height) {
            Ok(grid) => Ok(Universe { grid, generation: 0 }),
            Err(e) => Err(e),
        }
    }

    /// Builds a universe seeded with the given row-major cells; fails with
    /// `InvalidDimension` exactly when a dimension is zero.
    pub fn from_cells(width: usize, height: usize, cells: Vec<Cell>) -> (r: Result<
        Universe,
        Error,
    >)
        requires
            width * height <= usize::MAX,
            width * height <= i64::MAX,
            cells@.len() == width * height,
        ensures
            match r {
                Ok(u) => {
                    &&& 0 < width
                    &&& 0 < height
                    &&& u.wf()
                    &&& u@.width == width
                    &&& u@.height == height
                    &&& u@.cells == cells@
                    &&& u.spec_generation() == 0
                },
                Err(e) => e == Error::InvalidDimension && (width == 0 || height == 0),
            },
    {
        match Grid::from_cells(width, height, cells) {
            Ok(grid) => Ok(Universe { grid, generation: 0 }),
            Err(e) => Err(e),
        }
    }

    /// Number of columns.
    pub fn width(&self) -> (r: usize)
        ensures
            r == self@.width,
    {
        self.grid.width()
    }

    /// Number of rows.
    pub fn height(&self) -> (r: usize)
        ensures
            r == self@.height,
    {
        self.grid.height()
    }

    /// Number of ticks applied since construction.
    pub fn generation(&self) -> (r: u64)
        ensures
            r == self.spec_generation(),
    {
        self.generation
    }

    /// Read-only snapshot of the current generation, row-major with index
    /// `y * width + x`. It reflects exactly the owned grid, so with no
    /// intervening tick two snapshots are identical.
    pub fn cells(&self) -> (r: &Vec<Cell>)
        ensures
            r@ == self@.cells,
    {
        self.grid.cells()
    }

    /// The cell at (x, y) with toroidal addressing; any integer
    /// coordinate, including negative ones, resolves to some cell.
    pub fn cell_at(&self, x: i64, y: i64) -> (r: Cell)
        requires
            self.wf(),
        ensures
            r == cell_at(self@, x as int, y as int),
    {
        self.grid.cell_at(x, y)
    }

    /// Replaces the cell at the in-range coordinate (x, y); used to plant
    /// a seed pattern before the simulation runs.
    pub fn set_cell(&mut self, x: usize, y: usize, c: Cell)
        requires
            old(self).wf(),
            x < old(self)@.width,
            y < old(self)@.height,
        ensures
            final(self).wf(),
            final(self)@.width == old(self)@.width,
            final(self)@.height == old(self)@.height,
            final(self)@.cells == old(self)@.cells.update(
                y * old(self)@.width + x,
                c,
            ),
            final(self).spec_generation() == old(self).spec_generation(),
    {
        self.grid.set_cell(x, y, c);
    }

    /// Advances one generation: the owned grid is replaced wholesale by
    /// the B3/S23 step of the old grid, and the generation counter grows
    /// by one. Never fails on a well-formed universe.
    pub fn tick(&mut self)
        requires
            old(self).wf(),
            old(self).spec_generation() < u64::MAX,
        ensures
            final(self).wf(),
            final(self)@ == advance(old(self)@),
            final(self).spec_generation() == old(self).spec_generation() + 1,
    {
        let next = self.grid.advance();
        self.grid = next;
        self.generation = self.generation + 1;
    }
}

} // verus!

//! Grid storage and the tick engine: a fixed-dimension row-major buffer of
//! cells with toroidal addressing, the neighbor counter, and the
//! generation step that writes a fresh buffer while reading only the old
//! one.

use vstd::prelude::*;
use crate::model::{
    advance,
    alive_neighbors,
    cell_at,
    cell_index,
    grid_wf,
    lemma_advance_cell,
    lemma_cell_index_in_range,
    lemma_index_bijection,
    lemma_wrap_range,
    lemma_wrap_shift,
    rule,
    wrap,
    Cell,
    Error,
    GridView,
};
use vstd::arithmetic::div_mod::lemma_fundamental_div_mod;
use vstd::arithmetic::div_mod::lemma_fundamental_div_mod_converse_mod;

verus! {

/// One generation of the simulation: `width * height` cells in row-major
/// order, the cell at (x, y) stored at index `y * width + x`.
pub struct Grid {
    width: usize,
    height: usize,
    cells: Vec<Cell>,
}

impl View for Grid {
    type V = GridView;

    closed spec fn view(&self) -> GridView {
        GridView { width: self.width as int, height: self.height as int, cells: self.cells@ }
    }
}

/// Normalizes a possibly negative or overflowing coordinate into `[0, n)`
/// by Euclidean remainder.
fn wrap_coord(i: i64, n: usize) -> (r: usize)
    requires
        0 < n <= i64::MAX,
    ensures
        r == wrap(i as int, n as int),
{
    let nu = n as u64;
    if i >= 0 {
        let r = ((i as u64) % nu) as usize;
        proof {
            lemma_wrap_range(i as int, n as int);
        }
        r
    } else {
        // For i < 0, with a = -(i + 1) >= 0 and m = a % n, the Euclidean
        // remainder of i is n - 1 - m; -(i + 1) never overflows.
        let a = (-(i + 1)) as u64;
        let m = a % nu;
        let r = (nu - 1 - m) as usize;
        proof {
            let ni = n as int;
            let ai = a as int;
            lemma_fundamental_div_mod(ai, ni);
            lemma_wrap_range(ai, ni);
            assert(i as int == (-(ai / ni) - 1) * ni + (ni - 1 - ai % ni)) by (nonlinear_arith)
                requires
                    ai == n * (ai / ni) + ai % ni,
                    i as int == -ai - 1,
                    ni == n,
            ;
            lemma_fundamental_div_mod_converse_mod(
                i as int,
                ni,
                -(ai / ni) - 1,
                ni - 1 - ai % ni,
            );
        }
        r
    }
}

/// One cell's next state under the B3/S23 rule, from its current state and
/// its live-neighbor count.
pub fn next_cell(c: Cell, n: u8) -> (r: Cell)
    ensures
        r == rule(c, n as int),
{
    match c {
        Cell::Alive => if n == 2 || n == 3 {
            Cell::Alive
        } else {
            Cell::Dead
        },
        Cell::Dead => if n == 3 {
            Cell::Alive
        } else {
            Cell::Dead
        },
    }
}

impl Grid {
    /// Every grid this module hands out satisfies this: positive
    /// dimensions, one cell per coordinate, and sizes within machine
    /// limits.
    pub open spec fn wf(&self) -> bool {
        grid_wf(self@)
    }

    /// Builds an all-dead grid of the given dimensions; fails with
    /// `InvalidDimension` exactly when a dimension is zero.
    pub fn new(width: usize, height: usize) -> (r: Result<Grid, Error>)
        requires
            width * height <= usize::MAX,
            width * height <= i64::MAX,
        ensures
            match r {
                Ok(g) => {
                    &&& 0 < width
                    &&& 0 < height
                    &&& g.wf()
                    &&& g@.width == width
                    &&& g@.height == height
                    &&& forall|i: int| 0 <= i < g@.cells.len() ==> g@.cells[i] == Cell::Dead
                },
                Err(e) => e == Error::InvalidDimension && (width == 0 || height == 0),
            },
    {
        if width == 0 || height == 0 {
            return Err(Error::InvalidDimension);
        }
        let n = width * height;
        let mut cells: Vec<Cell> = Vec::new();
        while cells.len() < n
            invariant
                cells@.len() <= n,
                forall|i: int| 0 <= i < cells@.len() ==> cells@[i] == Cell::Dead,
            decreases n - cells@.len(),
        {
            cells.push(Cell::Dead);
        }
        Ok(Grid { width, height, cells })
    }

    /// Builds a grid holding the given row-major seed cells; fails with
    /// `InvalidDimension` exactly when a dimension is zero.
    pub fn from_cells(width: usize, height: usize, cells: Vec<Cell>) -> (r: Result<Grid, Error>)
        requires
            width * height <= usize::MAX,
            width * height <= i64::MAX,
            cells@.len() == width * height,
        ensures
            match r {
                Ok(g) => {
                    &&& 0 < width
                    &&& 0 < height
                    &&& g.wf()
                    &&& g@.width == width
                    &&& g@.height == height
                    &&& g@.cells == cells@
                },
                Err(e) => e == Error::InvalidDimension && (width == 0 || height == 0),
            },
    {
        if width == 0 || height == 0 {
            return Err(Error::InvalidDimension);
        }
        Ok(Grid { width, height, cells })
    }

    /// Number of columns.
    pub fn width(&self) -> (r: usize)
        ensures
            r == self@.width,
    {
        self.width
    }

    /// Number of rows.
    pub fn height(&self) -> (r: usize)
        ensures
            r == self@.height,
    {
        self.height
    }

    /// Read-only view of the current generation, row-major.
    pub fn cells(&self) -> (r: &Vec<Cell>)
        ensures
            r@ == self@.cells,
    {
        &self.cells
    }

    /// The cell at (x, y) with toroidal addressing: negative and
    /// overflowing coordinates are normalized modulo the dimensions, so
    /// every coordinate resolves to some cell and the lookup never fails.
    pub fn cell_at(&self, x: i64, y: i64) -> (r: Cell)
        requires
            self.wf(),
        ensures
            r == cell_at(self@, x as int, y as int),
    {
        proof {
            assert(self@.width <= i64::MAX && self@.height <= i64::MAX) by (nonlinear_arith)
                requires
                    0 < self@.width,
                    0 < self@.height,
                    self@.width * self@.height <= i64::MAX as int,
            ;
        }
        let xi = wrap_coord(x, self.width);
        let yi = wrap_coord(y, self.height);
        proof {
            lemma_cell_index_in_range(self@, x as int, y as int);
            assert(yi * self.width + xi == cell_index(self@, x as int, y as int));
        }
        let idx = yi * self.width + xi;
        self.cells[idx]
    }

    /// Replaces the cell at the in-range coordinate (x, y), leaving every
    /// other cell and the dimensions unchanged.
    pub fn set_cell(&mut self, x: usize, y: usize, c: Cell)
        requires
            old(self).wf(),
            x < old(self)@.width,
            y < old(self)@.height,
        ensures
            final(self).wf(),
            final(self)@.width == old(self)@.width,
            final(self)@.height == old(self)@.height,
            final(self)@.cells == old(self)@.cells.update(y * old(self)@.width + x, c),
    {
        proof {
            lemma_index_bijection(self@.width, self@.height, x as int, y as int);
        }
        let idx = y * self.width + x;
        self.cells[idx] = c;
    }

    /// Number of live cells among the 8 toroidal neighbors of (x, y),
    /// always between 0 and 8.
    pub fn alive_neighbors(&self, x: i64, y: i64) -> (r: u8)
        requires
            self.wf(),
        ensures
            r == alive_neighbors(self@, x as int, y as int),
            r <= 8,
    {
        proof {
            assert(self@.width <= i64::MAX && self@.height <= i64::MAX) by (nonlinear_arith)
                requires
                    0 < self@.width,
                    0 < self@.height,
                    self@.width * self@.height <= i64::MAX as int,
            ;
        }
        // Normalize once so that offset coordinates stay within i64 range;
        // wrapping commutes with the +/-1 offsets.
        let xb = wrap_coord(x, self.width) as i64;
        let yb = wrap_coord(y, self.height) as i64;
        proof {
            let w = self@.width;
            let h = self@.height;
            lemma_wrap_range(x as int, w);
            lemma_wrap_range(y as int, h);
            lemma_wrap_shift(x as int, -1, w);
            lemma_wrap_shift(x as int, 0, w);
            lemma_wrap_shift(x as int, 1, w);
            lemma_wrap_shift(y as int, -1, h);
            lemma_wrap_shift(y as int, 0, h);
            lemma_wrap_shift(y as int, 1, h);
        }
        let mut count: u8 = 0;
        if self.cell_at(xb - 1, yb - 1) == Cell::Alive {
            count = count + 1;
        }
        if self.cell_at(xb, yb - 1) == Cell::Alive {
            count = count + 1;
        }
        if self.cell_at(xb + 1, yb - 1) == Cell::Alive {
            count = count + 1;
        }
        if self.cell_at(xb - 1, yb) == Cell::Alive {
            count = count + 1;
        }
        if self.cell_at(xb + 1, yb) == Cell::Alive {
            count = count + 1;
        }
        if self.cell_at(xb - 1, yb + 1) == Cell::Alive {
            count = count + 1;
        }
        if self.cell_at(xb, yb + 1) == Cell::Alive {
            count = count + 1;
        }
        if self.cell_at(xb + 1, yb + 1) == Cell::Alive {
            count = count + 1;
        }
        count
    }

    /// One generation step: returns a fresh grid of the same dimensions in
    /// which every cell is the B3/S23 rule applied to its state and
    /// neighbor count in `self`. Only the input grid is read and only the
    /// output grid is written, so no mid-scan mutation is possible.
    pub fn advance(&self) -> (r: Grid)
        requires
            self.wf(),
        ensures
            r.wf(),
            r@ == advance(self@),
    {
        let w = self.width;
        let h = self.height;
        proof {
            assert(w <= i64::MAX && h <= i64::MAX) by (nonlinear_arith)
                requires
                    0 < w,
                    0 < h,
                    w * h <= i64::MAX as int,
            ;
        }
        let ghost target = advance(self@);
        let mut next: Vec<Cell> = Vec::new();
        let mut y: usize = 0;
        while y < h
            invariant
                self.wf(),
                w == self@.width,
                h == self@.height,
                w <= i64::MAX,
                h <= i64::MAX,
                target == advance(self@),
                y <= h,
                next@.len() == y * w,
                forall|i: int| 0 <= i < next@.len() ==> next@[i] == target.cells[i],
            decreases h - y,
        {
            let mut x: usize = 0;
            while x < w
                invariant
                    self.wf(),
                    w == self@.width,
                    h == self@.height,
                    w <= i64::MAX,
                    h <= i64::MAX,
                    target == advance(self@),
                    y < h,
                    x <= w,
                    next@.len() == y * w + x,
                    forall|i: int| 0 <= i < next@.len() ==> next@[i] == target.cells[i],
                decreases w - x,
            {
                let c = self.cell_at(x as i64, y as i64);
                let n = self.alive_neighbors(x as i64, y as i64);
                proof {
                    lemma_wrap_range(x as int, w as int);
                    lemma_wrap_range(y as int, h as int);
                    lemma_advance_cell(self@, x as int, y as int);
                }
                next.push(next_cell(c, n));
                x = x + 1;
            }
            proof {
                assert((y + 1) * w == y * w + w) by (nonlinear_arith);
            }
            y = y + 1;
        }
        proof {
            assert(h * w == w * h) by (nonlinear_arith);
            assert(next@ =~= target.cells);
        }
        Grid { width: w, height: h, cells: next }
    }
}

} // verus!

//! Properties of the engine beyond the per-function contracts: determinism
//! of the generation step, toroidal wraparound at the edges, snapshot
//! consistency, and the behaviour of classic patterns on an otherwise dead
//! grid — the 2×2 still life, the period-2 blinker, and the glider that
//! travels one cell diagonally every four ticks.

use vstd::prelude::*;
use crate::model::{
    advance,
    alive_neighbors,
    cell_at,
    cell_index,
    grid_wf,
    lemma_index_bijection,
    lemma_wrap_periodic,
    lemma_wrap_range,
    live_count,
    rule,
    wrap,
    Cell,
    GridView,
};
use vstd::arithmetic::div_mod::lemma_fundamental_div_mod;
use vstd::arithmetic::div_mod::lemma_fundamental_div_mod_converse_mod;
use vstd::arithmetic::div_mod::lemma_mod_division_less_than_divisor;
use vstd::arithmetic::div_mod::lemma_mod_self_0;
use vstd::arithmetic::div_mod::lemma_small_mod;

verus! {

/// Determinism: the generation step is a function of the grid alone, so
/// advancing equal grids yields equal grids.
pub proof fn lemma_advance_deterministic(g1: GridView, g2: GridView)
    requires
        g1 == g2,
    ensures
        advance(g1) == advance(g2),
{
}

/// Snapshot consistency: two snapshots of the same grid, taken with no
/// intervening tick, are the same sequence.
pub proof fn lemma_snapshot_consistent(g: GridView, c1: Seq<Cell>, c2: Seq<Cell>)
    requires
        c1 == g.cells,
        c2 == g.cells,
    ensures
        c1 == c2,
{
}

/// Toroidal addressing is periodic in both axes: moving a full width or
/// height in either direction lands on the same cell.
pub proof fn lemma_cell_at_periodic(g: GridView, x: int, y: int)
    requires
        grid_wf(g),
    ensures
        cell_at(g, x + g.width, y) == cell_at(g, x, y),
        cell_at(g, x - g.width, y) == cell_at(g, x, y),
        cell_at(g, x, y + g.height) == cell_at(g, x, y),
        cell_at(g, x, y - g.height) == cell_at(g, x, y),
{
    lemma_wrap_periodic(x, g.width);
    lemma_wrap_periodic(y, g.height);
}

/// Wraparound at the corners: the diagonal neighbors just outside each
/// corner of the grid are the cells at the opposite corners, so (0, 0)
/// counts (width-1, height-1) among its neighbors, and symmetrically.
pub proof fn lemma_corner_wraparound(g: GridView)
    requires
        grid_wf(g),
    ensures
        cell_at(g, -1, -1) == g.cells[(g.height - 1) * g.width + (g.width - 1)],
        cell_at(g, g.width, g.height) == g.cells[0],
        cell_at(g, g.width, -1) == g.cells[(g.height - 1) * g.width],
        cell_at(g, -1, g.height) == g.cells[g.width - 1],
{
    lemma_fundamental_div_mod_converse_mod(-1, g.width, -1, g.width - 1);
    lemma_fundamental_div_mod_converse_mod(-1, g.height, -1, g.height - 1);
    lemma_mod_self_0(g.width);
    lemma_mod_self_0(g.height);
    lemma_index_bijection(g.width, g.height, g.width - 1, g.height - 1);
    lemma_index_bijection(g.width, g.height, 0, 0);
    lemma_index_bijection(g.width, g.height, 0, g.height - 1);
    lemma_index_bijection(g.width, g.height, g.width - 1, 0);
    assert(cell_index(g, -1, -1) == (g.height - 1) * g.width + (g.width - 1));
    assert(cell_index(g, g.width, g.height) == 0 * g.width + 0);
    assert(cell_index(g, g.width, -1) == (g.height - 1) * g.width + 0);
    assert(cell_index(g, -1, g.height) == 0 * g.width + (g.width - 1));
}

/// 1 if the condition holds, else 0.
spec fn ind(b: bool) -> int {
    if b {
        1
    } else {
        0
    }
}

/// A grid that is dead everywhere except for a live axis-aligned
/// rectangle of cells: columns `[cx, cx + cw)`, rows `[ry, ry + rh)`.
pub open spec fn rect_grid(w: int, h: int, cx: int, cw: int, ry: int, rh: int) -> GridView {
    GridView {
        width: w,
        height: h,
        cells: Seq::new(
            (w * h) as nat,
            |i: int|
                if cx <= i % w < cx + cw && ry <= i / w < ry + rh {
                    Cell::Alive
                } else {
                    Cell::Dead
                },
        ),
    }
}

/// How many of the three consecutive wrapped coordinates around `v` fall
/// in the interval `[c0, c0 + cl)` of axis length `n`.
spec fn hits3(n: int, c0: int, cl: int, v: int) -> int {
    ind(c0 <= wrap(v - 1, n) < c0 + cl) + ind(c0 <= wrap(v, n) < c0 + cl) + ind(
        c0 <= wrap(v + 1, n) < c0 + cl,
    )
}

/// A cell of a rectangle grid is live exactly when its wrapped coordinates
/// fall inside the rectangle.
proof fn lemma_rect_at(w: int, h: int, cx: int, cw: int, ry: int, rh: int, x: int, y: int)
    requires
        0 < w,
        0 < h,
    ensures
        cell_at(rect_grid(w, h, cx, cw, ry, rh), x, y) == (if cx <= wrap(x, w) < cx + cw && ry
            <= wrap(y, h) < ry + rh {
            Cell::Alive
        } else {
            Cell::Dead
        }),
{
    lemma_wrap_range(x, w);
    lemma_wrap_range(y, h);
    lemma_index_bijection(w, h, wrap(x, w), wrap(y, h));
}

/// Splitting an indicator of a conjunction into a product.
proof fn lemma_ind_mul(p: bool, q: bool)
    ensures
        ind(p && q) == ind(p) * ind(q),
{
}

/// On a rectangle grid the neighbor count factors: it is the number of
/// column hits times the number of row hits, minus the center itself.
proof fn lemma_rect_neighbors(w: int, h: int, cx: int, cw: int, ry: int, rh: int, x: int, y: int)
    requires
        0 < w,
        0 < h,
    ensures
        alive_neighbors(rect_grid(w, h, cx, cw, ry, rh), x, y) == hits3(w, cx, cw, x) * hits3(
            h,
            ry,
            rh,
            y,
        ) - live_count(cell_at(rect_grid(w, h, cx, cw, ry, rh), x, y)),
{
    let g = rect_grid(w, h, cx, cw, ry, rh);
    let a1 = ind(cx <= wrap(x - 1, w) < cx + cw);
    let a2 = ind(cx <= wrap(x, w) < cx + cw);
    let a3 = ind(cx <= wrap(x + 1, w) < cx + cw);
    let b1 = ind(ry <= wrap(y - 1, h) < ry + rh);
    let b2 = ind(ry <= wrap(y, h) < ry + rh);
    let b3 = ind(ry <= wrap(y + 1, h) < ry + rh);
    lemma_rect_at(w, h, cx, cw, ry, rh, x - 1, y - 1);
    lemma_rect_at(w, h, cx, cw, ry, rh, x, y - 1);
    lemma_rect_at(w, h, cx, cw, ry, rh, x + 1, y - 1);
    lemma_rect_at(w, h, cx, cw, ry, rh, x - 1, y);
    lemma_rect_at(w, h, cx, cw, ry, rh, x, y);
    lemma_rect_at(w, h, cx, cw, ry, rh, x + 1, y);
    lemma_rect_at(w, h, cx, cw, ry, rh, x - 1, y + 1);
    lemma_rect_at(w, h, cx, cw, ry, rh, x, y + 1);
    lemma_rect_at(w, h, cx, cw, ry, rh, x + 1, y + 1);
    assert(live_count(cell_at(g, x - 1, y - 1)) == a1 * b1) by {
        lemma_ind_mul(cx <= wrap(x - 1, w) < cx + cw, ry <= wrap(y - 1, h) < ry + rh);
    }
    assert(live_count(cell_at(g, x, y - 1)) == a2 * b1) by {
        lemma_ind_mul(cx <= wrap(x, w) < cx + cw, ry <= wrap(y - 1, h) < ry + rh);
    }
    assert(live_count(cell_at(g, x + 1, y - 1)) == a3 * b1) by {
        lemma_ind_mul(cx <= wrap(x + 1, w) < cx + cw, ry <= wrap(y - 1, h) < ry + rh);
    }
    assert(live_count(cell_at(g, x - 1, y)) == a1 * b2) by {
        lemma_ind_mul(cx <= wrap(x - 1, w) < cx + cw, ry <= wrap(y, h) < ry + rh);
    }
    assert(live_count(cell_at(g, x, y)) == a2 * b2) by {
        lemma_ind_mul(cx <= wrap(x, w) < cx + cw, ry <= wrap(y, h) < ry + rh);
    }
    assert(live_count(cell_at(g, x + 1, y)) == a3 * b2) by {
        lemma_ind_mul(cx <= wrap(x + 1, w) < cx + cw, ry <= wrap(y, h) < ry + rh);
    }
    assert(live_count(cell_at(g, x - 1, y + 1)) == a1 * b3) by {
        lemma_ind_mul(cx <= wrap(x - 1, w) < cx + cw, ry <= wrap(y + 1, h) < ry + rh);
    }
    assert(live_count(cell_at(g, x, y + 1)) == a2 * b3) by {
        lemma_ind_mul(cx <= wrap(x, w) < cx + cw, ry <= wrap(y + 1, h) < ry + rh);
    }
    assert(live_count(cell_at(g, x + 1, y + 1)) == a3 * b3) by {
        lemma_ind_mul(cx <= wrap(x + 1, w) < cx + cw, ry <= wrap(y + 1, h) < ry + rh);
    }
    assert(a1 * b1 + a2 * b1 + a3 * b1 + a1 * b2 + a3 * b2 + a1 * b3 + a2 * b3 + a3 * b3 == (a1
        + a2 + a3) * (b1 + b2 + b3) - a2 * b2) by (nonlinear_arith);
}

/// The three wrapped coordinates around an in-range `v`: `v` itself stays,
/// and its neighbors wrap only at the two ends of the axis.
proof fn lemma_wrap_step(v: int, n: int)
    requires
        0 <= v < n,
    ensures
        wrap(v, n) == v,
        wrap(v - 1, n) == (if v == 0 {
            n - 1
        } else {
            v - 1
        }),
        wrap(v + 1, n) == (if v == n - 1 {
            0
        } else {
            v + 1
        }),
{
    lemma_small_mod(v as nat, n as nat);
    if v == 0 {
        lemma_fundamental_div_mod_converse_mod(-1, n, -1, n - 1);
    } else {
        lemma_small_mod((v - 1) as nat, n as nat);
    }
    if v == n - 1 {
        lemma_mod_self_0(n);
    } else {
        lemma_small_mod((v + 1) as nat, n as nat);
    }
}

/// A 2×2 block of live cells on an otherwise dead grid of size at least
/// 4×4 is a still life: one generation step maps the grid to itself. Each
/// block cell sees exactly 3 live neighbors and survives; no dead cell
/// sees exactly 3, so none is born.
pub proof fn lemma_block_still_life(w: int, h: int, x0: int, y0: int)
    requires
        4 <= w,
        4 <= h,
        0 <= x0,
        x0 + 2 <= w,
        0 <= y0,
        y0 + 2 <= h,
    ensures
        advance(rect_grid(w, h, x0, 2, y0, 2)) == rect_grid(w, h, x0, 2, y0, 2),
{
    let g = rect_grid(w, h, x0, 2, y0, 2);
    let a = advance(g);
    assert forall|i: int| 0 <= i < w * h implies a.cells[i] == g.cells[i] by {
        let x: int = i % w;
        let y: int = i / w;
        lemma_mod_division_less_than_divisor(i, w);
        lemma_fundamental_div_mod(i, w);
        assert(0 <= y < h) by (nonlinear_arith)
            requires
                i == w * y + x,
                0 <= x < w,
                0 <= i < w * h,
                0 < w,
        ;
        lemma_rect_neighbors(w, h, x0, 2, y0, 2, x, y);
        lemma_rect_at(w, h, x0, 2, y0, 2, x, y);
        lemma_wrap_step(x, w);
        lemma_wrap_step(y, h);
        let ch: int = hits3(w, x0, 2, x);
        let rh: int = hits3(h, y0, 2, y);
        assert(0 <= ch <= 2);
        assert(0 <= rh <= 2);
        let c = cell_at(g, x, y);
        let n: int = alive_neighbors(g, x, y);
        if x0 <= x < x0 + 2 && y0 <= y < y0 + 2 {
            assert(ch == 2);
            assert(rh == 2);
            assert(c == Cell::Alive);
            assert(n == 3) by (nonlinear_arith)
                requires
                    n == ch * rh - 1,
                    ch == 2,
                    rh == 2,
            ;
        } else {
            assert(c == Cell::Dead);
            assert(n != 3) by (nonlinear_arith)
                requires
                    n == ch * rh,
                    0 <= ch <= 2,
                    0 <= rh <= 2,
            ;
        }
        assert(a.cells[i] == rule(c, n)) by {
            lemma_index_bijection(w, h, x, y);
        }
        assert(g.cells[i] == c) by {
            lemma_index_bijection(w, h, x, y);
        }
    }
    assert(a =~= g);
}

/// One tick turns a horizontal 3-cell blinker into the vertical 3-cell
/// line through its middle cell: the two end cells die with 1 neighbor,
/// the middle survives with 2, and the cells above and below the middle
/// are born with 3. The grid must be at least 5×5 and the pattern placed
/// so that neither line touches an edge.
pub proof fn lemma_blinker_horizontal_to_vertical(w: int, h: int, x0: int, y0: int)
    requires
        5 <= w,
        5 <= h,
        0 <= x0,
        x0 + 3 <= w,
        1 <= y0,
        y0 + 2 <= h,
    ensures
        advance(rect_grid(w, h, x0, 3, y0, 1)) == rect_grid(w, h, x0 + 1, 1, y0 - 1, 3),
{
    let g = rect_grid(w, h, x0, 3, y0, 1);
    let t = rect_grid(w, h, x0 + 1, 1, y0 - 1, 3);
    let a = advance(g);
    assert forall|i: int| 0 <= i < w * h implies a.cells[i] == t.cells[i] by {
        let x: int = i % w;
        let y: int = i / w;
        lemma_mod_division_less_than_divisor(i, w);
        lemma_fundamental_div_mod(i, w);
        assert(0 <= y < h) by (nonlinear_arith)
            requires
                i == w * y + x,
                0 <= x < w,
                0 <= i < w * h,
                0 < w,
        ;
        lemma_rect_neighbors(w, h, x0, 3, y0, 1, x, y);
        lemma_rect_at(w, h, x0, 3, y0, 1, x, y);
        lemma_rect_at(w, h, x0 + 1, 1, y0 - 1, 3, x, y);
        lemma_wrap_step(x, w);
        lemma_wrap_step(y, h);
        let ch: int = hits3(w, x0, 3, x);
        let rh: int = hits3(h, y0, 1, y);
        assert(0 <= ch <= 3);
        assert(0 <= rh <= 1);
        let c = cell_at(g, x, y);
        let n: int = alive_neighbors(g, x, y);
        if c == Cell::Alive {
            assert(rh == 1);
            assert(n == ch - 1) by (nonlinear_arith)
                requires
                    n == ch * rh - 1,
                    rh == 1,
            ;
            if x == x0 + 1 {
                assert(ch == 3);
            } else {
                assert(ch == 2);
            }
        } else {
            assert(n == ch * rh);
            assert(n == 3 <==> (ch == 3 && rh == 1)) by (nonlinear_arith)
                requires
                    n == ch * rh,
                    0 <= ch <= 3,
                    0 <= rh <= 1,
            ;
            assert(ch == 3 <==> x == x0 + 1);
            assert(rh == 1 <==> (y0 - 1 <= y < y0 + 2));
        }
        assert(a.cells[i] == rule(c, n)) by {
            lemma_index_bijection(w, h, x, y);
        }
        assert(t.cells[i] == cell_at(t, x, y)) by {
            lemma_index_bijection(w, h, x, y);
        }
    }
    assert(a =~= t);
}

/// One tick turns a vertical 3-cell blinker into the horizontal 3-cell
/// line through its middle cell; the mirror image of the horizontal case.
pub proof fn lemma_blinker_vertical_to_horizontal(w: int, h: int, cx: int, ry: int)
    requires
        5 <= w,
        5 <= h,
        1 <= cx,
        cx + 2 <= w,
        0 <= ry,
        ry + 3 <= h,
    ensures
        advance(rect_grid(w, h, cx, 1, ry, 3)) == rect_grid(w, h, cx - 1, 3, ry + 1, 1),
{
    let g = rect_grid(w, h, cx, 1, ry, 3);
    let t = rect_grid(w, h, cx - 1, 3, ry + 1, 1);
    let a = advance(g);
    assert forall|i: int| 0 <= i < w * h implies a.cells[i] == t.cells[i] by {
        let x: int = i % w;
        let y: int = i / w;
        lemma_mod_division_less_than_divisor(i, w);
        lemma_fundamental_div_mod(i, w);
        assert(0 <= y < h) by (nonlinear_arith)
            requires
                i == w * y + x,
                0 <= x < w,
                0 <= i < w * h,
                0 < w,
        ;
        lemma_rect_neighbors(w, h, cx, 1, ry, 3, x, y);
        lemma_rect_at(w, h, cx, 1, ry, 3, x, y);
        lemma_rect_at(w, h, cx - 1, 3, ry + 1, 1, x, y);
        lemma_wrap_step(x, w);
        lemma_wrap_step(y, h);
        let ch: int = hits3(w, cx, 1, x);
        let rh: int = hits3(h, ry, 3, y);
        assert(0 <= ch <= 1);
        assert(0 <= rh <= 3);
        let c = cell_at(g, x, y);
        let n: int = alive_neighbors(g, x, y);
        if c == Cell::Alive {
            assert(ch == 1);
            assert(n == rh - 1) by (nonlinear_arith)
                requires
                    n == ch * rh - 1,
                    ch == 1,
            ;
            if y == ry + 1 {
                assert(rh == 3);
            } else {
                assert(rh == 2);
            }
        } else {
            assert(n == ch * rh);
            assert(n == 3 <==> (ch == 1 && rh == 3)) by (nonlinear_arith)
                requires
                    n == ch * rh,
                    0 <= ch <= 1,
                    0 <= rh <= 3,
            ;
            assert(rh == 3 <==> y == ry + 1);
            assert(ch == 1 <==> (cx - 1 <= x < cx + 2));
        }
        assert(a.cells[i] == rule(c, n)) by {
            lemma_index_bijection(w, h, x, y);
        }
        assert(t.cells[i] == cell_at(t, x, y)) by {
            lemma_index_bijection(w, h, x, y);
        }
    }
    assert(a =~= t);
}

/// Reduces a toroidal lookup to a plain in-range index: the cell index of
/// (x, y) is built from the wrapped coordinates, lies inside the cell
/// buffer, and decomposes back into them by division and remainder.
proof fn lemma_torus_at(w: int, h: int, g: GridView, x: int, y: int)
    requires
        0 < w,
        0 < h,
        g.width == w,
        g.height == h,
    ensures
        cell_index(g, x, y) == wrap(y, h) * w + wrap(x, w),
        0 <= cell_index(g, x, y) < w * h,
        (wrap(y, h) * w + wrap(x, w)) % w == wrap(x, w),
        (wrap(y, h) * w + wrap(x, w)) / w == wrap(y, h),
{
    lemma_wrap_range(x, w);
    lemma_wrap_range(y, h);
    lemma_index_bijection(w, h, wrap(x, w), wrap(y, h));
}

/// The glider: the 5-cell pattern whose bounding box is the 3×3 square at
/// the given offset from its base coordinate.
pub open spec fn glider_cell(dx: int, dy: int) -> bool {
    ||| (dx == 1 && dy == 0)
    ||| (dx == 2 && dy == 1)
    ||| (dx == 0 && dy == 2)
    ||| (dx == 1 && dy == 2)
    ||| (dx == 2 && dy == 2)
}

/// A grid that is dead everywhere except for a glider based at (x0, y0).
pub open spec fn glider_grid(w: int, h: int, x0: int, y0: int) -> GridView {
    GridView {
        width: w,
        height: h,
        cells: Seq::new(
            (w * h) as nat,
            |i: int|
                if glider_cell(i % w - x0, i / w - y0) {
                    Cell::Alive
                } else {
                    Cell::Dead
                },
        ),
    }
}

/// The glider one tick in: second of its four phases.
spec fn glider_cell_b(dx: int, dy: int) -> bool {
    ||| (dx == 0 && dy == 1)
    ||| (dx == 2 && dy == 1)
    ||| (dx == 1 && dy == 2)
    ||| (dx == 2 && dy == 2)
    ||| (dx == 1 && dy == 3)
}

/// The glider two ticks in: third of its four phases.
spec fn glider_cell_c(dx: int, dy: int) -> bool {
    ||| (dx == 2 && dy == 1)
    ||| (dx == 0 && dy == 2)
    ||| (dx == 2 && dy == 2)
    ||| (dx == 1 && dy == 3)
    ||| (dx == 2 && dy == 3)
}

/// The glider three ticks in: last of its four phases.
spec fn glider_cell_d(dx: int, dy: int) -> bool {
    ||| (dx == 1 && dy == 1)
    ||| (dx == 2 && dy == 2)
    ||| (dx == 3 && dy == 2)
    ||| (dx == 1 && dy == 3)
    ||| (dx == 2 && dy == 3)
}

/// Second-phase analogue of `glider_grid`.
spec fn glider_grid_b(w: int, h: int, x0: int, y0: int) -> GridView {
    GridView {
        width: w,
        height: h,
        cells: Seq::new(
            (w * h) as nat,
            |i: int|
                if glider_cell_b(i % w - x0, i / w - y0) {
                    Cell::Alive
                } else {
                    Cell::Dead
                },
        ),
    }
}

/// Third-phase analogue of `glider_grid`.
spec fn glider_grid_c(w: int, h: int, x0: int, y0: int) -> GridView {
    GridView {
        width: w,
        height: h,
        cells: Seq::new(
            (w * h) as nat,
            |i: int|
                if glider_cell_c(i % w - x0, i / w - y0) {
                    Cell::Alive
                } else {
                    Cell::Dead
                },
        ),
    }
}

/// Fourth-phase analogue of `glider_grid`.
spec fn glider_grid_d(w: int, h: int, x0: int, y0: int) -> GridView {
    GridView {
        width: w,
        height: h,
        cells: Seq::new(
            (w * h) as nat,
            |i: int|
                if glider_cell_d(i % w - x0, i / w - y0) {
                    Cell::Alive
                } else {
                    Cell::Dead
                },
        ),
    }
}

/// The margins under which the glider's four phases and their neighbor
/// ring stay away from the edges, so wraparound cannot interfere.
pub open spec fn glider_fits(w: int, h: int, x0: int, y0: int) -> bool {
    &&& 1 <= x0
    &&& x0 + 5 <= w
    &&& 1 <= y0
    &&& y0 + 5 <= h
}

/// One tick takes the glider's first phase to its second.
proof fn lemma_glider_step_a(w: int, h: int, x0: int, y0: int)
    requires
        glider_fits(w, h, x0, y0),
    ensures
        advance(glider_grid(w, h, x0, y0)) == glider_grid_b(w, h, x0, y0),
{
    let g = glider_grid(w, h, x0, y0);
    let t = glider_grid_b(w, h, x0, y0);
    let a = advance(g);
    assert forall|i: int| 0 <= i < w * h implies a.cells[i] == t.cells[i] by {
        let x: int = i % w;
        let y: int = i / w;
        lemma_mod_division_less_than_divisor(i, w);
        lemma_fundamental_div_mod(i, w);
        assert(0 <= y < h) by (nonlinear_arith)
            requires
                i == w * y + x,
                0 <= x < w,
                0 <= i < w * h,
                0 < w,
        ;
        lemma_wrap_step(x, w);
        lemma_wrap_step(y, h);
        lemma_torus_at(w, h, g, x - 1, y - 1);
        lemma_torus_at(w, h, g, x, y - 1);
        lemma_torus_at(w, h, g, x + 1, y - 1);
        lemma_torus_at(w, h, g, x - 1, y);
        lemma_torus_at(w, h, g, x, y);
        lemma_torus_at(w, h, g, x + 1, y);
        lemma_torus_at(w, h, g, x - 1, y + 1);
        lemma_torus_at(w, h, g, x, y + 1);
        lemma_torus_at(w, h, g, x + 1, y + 1);
    }
    assert(a =~= t);
}

/// One tick takes the glider's second phase to its third.
proof fn lemma_glider_step_b(w: int, h: int, x0: int, y0: int)
    requires
        glider_fits(w, h, x0, y0),
    ensures
        advance(glider_grid_b(w, h, x0, y0)) == glider_grid_c(w, h, x0, y0),
{
    let g = glider_grid_b(w, h, x0, y0);
    let t = glider_grid_c(w, h, x0, y0);
    let a = advance(g);
    assert forall|i: int| 0 <= i < w * h implies a.cells[i] == t.cells[i] by {
        let x: int = i % w;
        let y: int = i / w;
        lemma_mod_division_less_than_divisor(i, w);
        lemma_fundamental_div_mod(i, w);
        assert(0 <= y < h) by (nonlinear_arith)
            requires
                i == w * y + x,
                0 <= x < w,
                0 <= i < w * h,
                0 < w,
        ;
        lemma_wrap_step(x, w);
        lemma_wrap_step(y, h);
        lemma_torus_at(w, h, g, x - 1, y - 1);
        lemma_torus_at(w, h, g, x, y - 1);
        lemma_torus_at(w, h, g, x + 1, y - 1);
        lemma_torus_at(w, h, g, x - 1, y);
        lemma_torus_at(w, h, g, x, y);
        lemma_torus_at(w, h, g, x + 1, y);
        lemma_torus_at(w, h, g, x - 1, y + 1);
        lemma_torus_at(w, h, g, x, y + 1);
        lemma_torus_at(w, h, g, x + 1, y + 1);
    }
    assert(a =~= t);
}

/// One tick takes the glider's third phase to its fourth.
proof fn lemma_glider_step_c(w: int, h: int, x0: int, y0: int)
    requires
        glider_fits(w, h, x0, y0),
    ensures
        advance(glider_grid_c(w, h, x0, y0)) == glider_grid_d(w, h, x0, y0),
{
    let g = glider_grid_c(w, h, x0, y0);
    let t = glider_grid_d(w, h, x0, y0);
    let a = advance(g);
    assert forall|i: int| 0 <= i < w * h implies a.cells[i] == t.cells[i] by {
        let x: int = i % w;
        let y: int = i / w;
        lemma_mod_division_less_than_divisor(i, w);
        lemma_fundamental_div_mod(i, w);
        assert(0 <= y < h) by (nonlinear_arith)
            requires
                i == w * y + x,
                0 <= x < w,
                0 <= i < w * h,
                0 < w,
        ;
        lemma_wrap_step(x, w);
        lemma_wrap_step(y, h);
        lemma_torus_at(w, h, g, x - 1, y - 1);
        lemma_torus_at(w, h, g, x, y - 1);
        lemma_torus_at(w, h, g, x + 1, y - 1);
        lemma_torus_at(w, h, g, x - 1, y);
        lemma_torus_at(w, h, g, x, y);
        lemma_torus_at(w, h, g, x + 1, y);
        lemma_torus_at(w, h, g, x - 1, y + 1);
        lemma_torus_at(w, h, g, x, y + 1);
        lemma_torus_at(w, h, g, x + 1, y + 1);
    }
    assert(a =~= t);
}

/// One tick takes the glider's fourth phase to the first phase again,
/// translated one cell right and one cell down.
proof fn lemma_glider_step_d(w: int, h: int, x0: int, y0: int)
    requires
        glider_fits(w, h, x0, y0),
    ensures
        advance(glider_grid_d(w, h, x0, y0)) == glider_grid(w, h, x0 + 1, y0 + 1),
{
    let g = glider_grid_d(w, h, x0, y0);
    let t = glider_grid(w, h, x0 + 1, y0 + 1);
    let a = advance(g);
    assert forall|i: int| 0 <= i < w * h implies a.cells[i] == t.cells[i] by {
        let x: int = i % w;
        let y: int = i / w;
        lemma_mod_division_less_than_divisor(i, w);
        lemma_fundamental_div_mod(i, w);
        assert(0 <= y < h) by (nonlinear_arith)
            requires
                i == w * y + x,
                0 <= x < w,
                0 <= i < w * h,
                0 < w,
        ;
        lemma_wrap_step(x, w);
        lemma_wrap_step(y, h);
        lemma_torus_at(w, h, g, x - 1, y - 1);
        lemma_torus_at(w, h, g, x, y - 1);
        lemma_torus_at(w, h, g, x + 1, y - 1);
        lemma_torus_at(w, h, g, x - 1, y);
        lemma_torus_at(w, h, g, x, y);
        lemma_torus_at(w, h, g, x + 1, y);
        lemma_torus_at(w, h, g, x - 1, y + 1);
        lemma_torus_at(w, h, g, x, y + 1);
        lemma_torus_at(w, h, g, x + 1, y + 1);
    }
    assert(a =~= t);
}

/// Glider translation: four ticks reproduce the glider's shape one cell
/// right and one cell down, on any grid where the pattern and its
/// evolution keep a margin from the edges, so wraparound cannot let the
/// pattern interfere with itself.
pub proof fn lemma_glider_translation(w: int, h: int, x0: int, y0: int)
    requires
        glider_fits(w, h, x0, y0),
    ensures
        advance(advance(advance(advance(glider_grid(w, h, x0, y0))))) == glider_grid(
            w,
            h,
            x0 + 1,
            y0 + 1,
        ),
{
    lemma_glider_step_a(w, h, x0, y0);
    lemma_glider_step_b(w, h, x0, y0);
    lemma_glider_step_c(w, h, x0, y0);
    lemma_glider_step_d(w, h, x0, y0);
}

/// The blinker has period 2: two ticks return a horizontal 3-cell line,
/// placed away from the edges of a grid of size at least 5×5, to itself.
pub proof fn lemma_blinker_period_two(w: int, h: int, x0: int, y0: int)
    requires
        5 <= w,
        5 <= h,
        0 <= x0,
        x0 + 3 <= w,
        1 <= y0,
        y0 + 2 <= h,
    ensures
        advance(advance(rect_grid(w, h, x0, 3, y0, 1))) == rect_grid(w, h, x0, 3, y0, 1),
{
    lemma_blinker_horizontal_to_vertical(w, h, x0, y0);
    lemma_blinker_vertical_to_horizontal(w, h, x0 + 1, y0 - 1);
}

} // verus!

use vstd::prelude::*;

use crate::universe::{lemma_index, lemma_wrap_once, live_at, live_neighbors, next_generation, next_state, wrap, Cell, Universe};

verus! {

/// Advancing depends on the grid's size and current generation alone: two
/// universes of one size that hold the same cells advance to the same cells,
/// whatever their second buffers hold.
pub proof fn lemma_tick_deterministic(a: Universe, b: Universe)
    requires
        a.wf(),
        b.wf(),
        a.rows() == b.rows(),
        a.cols() == b.cols(),
        a.cells() == b.cells(),
    ensures
        a.successor() == b.successor(),
{
}

/// The torus has no seam, for every size, one row or one column included: left
/// of the first column is the last column, right of the last column is the
/// first, above the first row is the last row and below the last row is the first.
pub proof fn lemma_wrap_seamless(height: int, width: int)
    requires
        0 < height,
        0 < width,
    ensures
        wrap(-1, width) == width - 1,
        wrap(width, width) == 0,
        wrap(-1, height) == height - 1,
        wrap(height, height) == 0,
        forall|cells: Seq<Cell>, row: int|
            #[trigger] live_at(cells, height, width, row, -1) == live_at(
                cells,
                height,
                width,
                row,
                width - 1,
            ),
        forall|cells: Seq<Cell>, row: int|
            #[trigger] live_at(cells, height, width, row, width) == live_at(
                cells,
                height,
                width,
                row,
                0,
            ),
        forall|cells: Seq<Cell>, col: int|
            #[trigger] live_at(cells, height, width, -1, col) == live_at(
                cells,
                height,
                width,
                height - 1,
                col,
            ),
        forall|cells: Seq<Cell>, col: int|
            #[trigger] live_at(cells, height, width, height, col) == live_at(
                cells,
                height,
                width,
                0,
                col,
            ),
{
    lemma_wrap_once(-1, width);
    lemma_wrap_once(width, width);
    lemma_wrap_once(width - 1, width);
    lemma_wrap_once(0, width);
    lemma_wrap_once(-1, height);
    lemma_wrap_once(height, height);
    lemma_wrap_once(height - 1, height);
    lemma_wrap_once(0, height);
}

/// A rectangle of live cells, `nr` rows by `nc` columns from `(top, left)`, on an
/// otherwise dead `height` by `width` grid.
pub open spec fn rectangle(height: int, width: int, top: int, left: int, nr: int, nc: int) -> Seq<
    Cell,
> {
    Seq::new(
        (height * width) as nat,
        |i: int|
            if top <= i / width < top + nr && left <= i % width < left + nc {
                Cell::Alive
            } else {
                Cell::Dead
            },
    )
}

/// 1 if `v` lies in `[lo, lo + n)`, else 0.
spec fn in_span(v: int, lo: int, n: int) -> int {
    if lo <= v < lo + n {
        1
    } else {
        0
    }
}

/// How many of `v - 1`, `v` and `v + 1`, taken around `size`, lie in `[lo, lo + n)`.
spec fn span_hits(v: int, lo: int, n: int, size: int) -> int {
    in_span(wrap(v - 1, size), lo, n) + in_span(v, lo, n) + in_span(wrap(v + 1, size), lo, n)
}

/// Inside a rectangle pattern the cell at `(x, y)` is alive exactly when its row
/// and its column lie in the rectangle's spans.
proof fn lemma_rectangle_at(height: int, width: int, top: int, left: int, nr: int, nc: int, x: int, y: int)
    requires
        0 <= x < height,
        0 <= y < width,
    ensures
        0 <= x * width + y < rectangle(height, width, top, left, nr, nc).len(),
        rectangle(height, width, top, left, nr, nc)[x * width + y].weight() == in_span(x, top, nr)
            * in_span(y, left, nc),
{
    lemma_index(x, y, height, width);
}

/// The live neighbours of a cell of a rectangle pattern: the hits of its row
/// span times those of its column span, less the cell itself.
proof fn lemma_rectangle_neighbors(
    height: int,
    width: int,
    top: int,
    left: int,
    nr: int,
    nc: int,
    x: int,
    y: int,
)
    requires
        0 <= x < height,
        0 <= y < width,
    ensures
        live_neighbors(rectangle(height, width, top, left, nr, nc), height, width, x, y) == span_hits(
            x,
            top,
            nr,
            height,
        ) * span_hits(y, left, nc, width) - in_span(x, top, nr) * in_span(y, left, nc),
{
    let p = rectangle(height, width, top, left, nr, nc);
    lemma_wrap_once(x - 1, height);
    lemma_wrap_once(x + 1, height);
    lemma_wrap_once(y - 1, width);
    lemma_wrap_once(y + 1, width);
    lemma_wrap_once(x, height);
    lemma_wrap_once(y, width);
    let xu = wrap(x - 1, height);
    let xd = wrap(x + 1, height);
    let yl = wrap(y - 1, width);
    let yr = wrap(y + 1, width);
    lemma_rectangle_at(height, width, top, left, nr, nc, xu, yl);
    lemma_rectangle_at(height, width, top, left, nr, nc, xu, y);
    lemma_rectangle_at(height, width, top, left, nr, nc, xu, yr);
    lemma_rectangle_at(height, width, top, left, nr, nc, x, yl);
    lemma_rectangle_at(height, width, top, left, nr, nc, x, yr);
    lemma_rectangle_at(height, width, top, left, nr, nc, xd, yl);
    lemma_rectangle_at(height, width, top, left, nr, nc, xd, y);
    lemma_rectangle_at(height, width, top, left, nr, nc, xd, yr);
    let a1 = in_span(xu, top, nr);
    let a2 = in_span(x, top, nr);
    let a3 = in_span(xd, top, nr);
    let b1 = in_span(yl, left, nc);
    let b2 = in_span(y, left, nc);
    let b3 = in_span(yr, left, nc);
    assert((a1 + a2 + a3) * (b1 + b2 + b3) - a2 * b2 == a1 * b1 + a1 * b2 + a1 * b3 + a2 * b1 + a2
        * b3 + a3 * b1 + a3 * b2 + a3 * b3) by (nonlinear_arith);
}

/// Row and column of an index of a `height` by `width` grid.
pub(crate) proof fn lemma_coords(i: int, height: int, width: int)
    requires
        0 < width,
        0 <= i < height * width,
    ensures
        0 <= i / width < height,
        0 <= i % width < width,
        i == (i / width) * width + i % width,
{
    vstd::arithmetic::div_mod::lemma_fundamental_div_mod(i, width);
    vstd::arithmetic::div_mod::lemma_mod_pos_bound(i, width);
    let q = i / width;
    let r = i % width;
    assert(i == q * width + r) by (nonlinear_arith)
        requires
            i == width * q + r,
    ;
    assert(0 <= q < height) by (nonlinear_arith)
        requires
            i == q * width + r,
            0 <= r < width,
            0 <= i < height * width,
    ;
}

/// A two by two block of live cells on an otherwise dead grid of at least four
/// rows and four columns does not change from one generation to the next.
pub proof fn lemma_block_still_life(height: int, width: int, row: int, col: int)
    requires
        4 <= height,
        4 <= width,
        0 <= row,
        row + 2 <= height,
        0 <= col,
        col + 2 <= width,
    ensures
        next_generation(rectangle(height, width, row, col, 2, 2), height, width) == rectangle(
            height,
            width,
            row,
            col,
            2,
            2,
        ),
{
    let p = rectangle(height, width, row, col, 2, 2);
    let q = next_generation(p, height, width);
    assert forall|i: int| 0 <= i < p.len() implies #[trigger] q[i] == p[i] by {
        lemma_coords(i, height, width);
        let x = i / width;
        let y = i % width;
        lemma_rectangle_neighbors(height, width, row, col, 2, 2, x, y);
        lemma_rectangle_at(height, width, row, col, 2, 2, x, y);
        lemma_wrap_once(x - 1, height);
        lemma_wrap_once(x + 1, height);
        lemma_wrap_once(y - 1, width);
        lemma_wrap_once(y + 1, width);
        let a = span_hits(x, row, 2, height);
        let b = span_hits(y, col, 2, width);
        let cx = in_span(x, row, 2);
        let cy = in_span(y, col, 2);
        let n = live_neighbors(p, height, width, x, y);
        assert(0 <= a <= 2);
        assert(0 <= b <= 2);
        assert(n == a * b - cx * cy);
        if cx == 1 && cy == 1 {
            assert(a == 2 && b == 2);
            assert(n == 3) by (nonlinear_arith)
                requires
                    a == 2,
                    b == 2,
                    cx == 1,
                    cy == 1,
                    n == a * b - cx * cy,
            ;
        } else {
            assert(n != 3) by (nonlinear_arith)
                requires
                    0 <= a <= 2,
                    0 <= b <= 2,
                    cx == 0 || cy == 0,
                    n == a * b - cx * cy,
            ;
        }
    }
    assert(q =~= p);
}

/// A row of three live cells, on a grid of at least three rows and four columns,
/// turns into a column of three through its middle cell.
proof fn lemma_blinker_turns(height: int, width: int, row: int, col: int)
    requires
        3 <= height,
        4 <= width,
        1 <= row,
        row + 2 <= height,
        0 <= col,
        col + 3 <= width,
    ensures
        next_generation(rectangle(height, width, row, col, 1, 3), height, width) == rectangle(
            height,
            width,
            row - 1,
            col + 1,
            3,
            1,
        ),
{
    let p = rectangle(height, width, row, col, 1, 3);
    let v = rectangle(height, width, row - 1, col + 1, 3, 1);
    let q = next_generation(p, height, width);
    assert forall|i: int| 0 <= i < p.len() implies #[trigger] q[i] == v[i] by {
        lemma_coords(i, height, width);
        let x = i / width;
        let y = i % width;
        lemma_rectangle_neighbors(height, width, row, col, 1, 3, x, y);
        lemma_rectangle_at(height, width, row, col, 1, 3, x, y);
        lemma_rectangle_at(height, width, row - 1, col + 1, 3, 1, x, y);
        lemma_wrap_once(x - 1, height);
        lemma_wrap_once(x + 1, height);
        lemma_wrap_once(y - 1, width);
        lemma_wrap_once(y + 1, width);
        let a = span_hits(x, row, 1, height);
        let b = span_hits(y, col, 3, width);
        let cx = in_span(x, row, 1);
        let cy = in_span(y, col, 3);
        let n = live_neighbors(p, height, width, x, y);
        assert(a == if row - 1 <= x <= row + 1 { 1int } else { 0 });
        assert(0 <= b <= 3);
        assert(b == 3 <==> y == col + 1);
        assert(n == a * b - cx * cy);
        if cx == 1 && cy == 1 {
            assert(n == b - 1) by (nonlinear_arith)
                requires
                    a == 1,
                    cx == 1,
                    cy == 1,
                    n == a * b - cx * cy,
            ;
        } else {
            assert(n == a * b) by (nonlinear_arith)
                requires
                    cx == 0 || cy == 0,
                    n == a * b - cx * cy,
            ;
            assert(n == 3 <==> a == 1 && b == 3) by (nonlinear_arith)
                requires
                    a == 0 || a == 1,
                    0 <= b <= 3,
                    n == a * b,
            ;
        }
    }
    assert(q =~= v);
}

/// A column of three live cells, on a grid of at least four rows and three
/// columns, turns into a row of three through its middle cell.
proof fn lemma_blinker_turns_back(height: int, width: int, row: int, col: int)
    requires
        4 <= height,
        3 <= width,
        1 <= row,
        row + 2 <= height,
        0 <= col,
        col + 3 <= width,
    ensures
        next_generation(rectangle(height, width, row - 1, col + 1, 3, 1), height, width)
            == rectangle(height, width, row, col, 1, 3),
{
    let p = rectangle(height, width, row - 1, col + 1, 3, 1);
    let h = rectangle(height, width, row, col, 1, 3);
    let q = next_generation(p, height, width);
    assert forall|i: int| 0 <= i < p.len() implies #[trigger] q[i] == h[i] by {
        lemma_coords(i, height, width);
        let x = i / width;
        let y = i % width;
        lemma_rectangle_neighbors(height, width, row - 1, col + 1, 3, 1, x, y);
        lemma_rectangle_at(height, width, row - 1, col + 1, 3, 1, x, y);
        lemma_rectangle_at(height, width, row, col, 1, 3, x, y);
        lemma_wrap_once(x - 1, height);
        lemma_wrap_once(x + 1, height);
        lemma_wrap_once(y - 1, width);
        lemma_wrap_once(y + 1, width);
        let a = span_hits(x, row - 1, 3, height);
        let b = span_hits(y, col + 1, 1, width);
        let cx = in_span(x, row - 1, 3);
        let cy = in_span(y, col + 1, 1);
        let n = live_neighbors(p, height, width, x, y);
        assert(b == if col <= y <= col + 2 { 1int } else { 0 });
        assert(0 <= a <= 3);
        assert(a == 3 <==> x == row);
        assert(n == a * b - cx * cy);
        if cx == 1 && cy == 1 {
            assert(n == a - 1) by (nonlinear_arith)
                requires
                    b == 1,
                    cx == 1,
                    cy == 1,
                    n == a * b - cx * cy,
            ;
        } else {
            assert(n == a * b) by (nonlinear_arith)
                requires
                    cx == 0 || cy == 0,
                    n == a * b - cx * cy,
            ;
            assert(n == 3 <==> b == 1 && a == 3) by (nonlinear_arith)
                requires
                    b == 0 || b == 1,
                    0 <= a <= 3,
                    n == a * b,
            ;
        }
    }
    assert(q =~= h);
}

/// A row of three live cells (a blinker) on an otherwise dead grid of at least
/// four rows and four columns changes at the next generation and is back after
/// two.
pub proof fn lemma_blinker_period_two(height: int, width: int, row: int, col: int)
    requires
        4 <= height,
        4 <= width,
        1 <= row,
        row + 2 <= height,
        0 <= col,
        col + 3 <= width,
    ensures
        next_generation(rectangle(height, width, row, col, 1, 3), height, width) != rectangle(
            height,
            width,
            row,
            col,
            1,
            3,
        ),
        next_generation(
            next_generation(rectangle(height, width, row, col, 1, 3), height, width),
            height,
            width,
        ) == rectangle(height, width, row, col, 1, 3),
{
    lemma_blinker_turns(height, width, row, col);
    lemma_blinker_turns_back(height, width, row, col);
    let v = rectangle(height, width, row - 1, col + 1, 3, 1);
    lemma_index(row, col, height, width);
    assert(v[row * width + col] == Cell::Dead);
}

} // verus!

use vstd::prelude::*;

use crate::laws::lemma_coords;
use crate::universe::{
    dead_grid, glider_offsets, lemma_index, lemma_wrap_once, live_at, next_generation, placed,
    with_alive, wrap, Cell,
};

verus! {

/// `x` measured from `r` around a torus of size `n`, as a number in `[-3, n - 3)`.
spec fn rel(x: int, r: int, n: int) -> int {
    wrap(x - r + 3, n) - 3
}

/// Whether `(u, v)`, measured from the centre that the glider was placed at, is
/// alive in the glider's phase `k`; phase 4 is phase 0 moved one row down and one
/// column right.
spec fn glider_phase(k: int, u: int, v: int) -> bool {
    if k == 0 {
        (u == -1 && v == 0) || (u == 0 && v == 1) || (u == 1 && (v == -1 || v == 0 || v == 1))
    } else if k == 1 {
        (u == 0 && (v == -1 || v == 1)) || (u == 1 && (v == 0 || v == 1)) || (u == 2 && v == 0)
    } else if k == 2 {
        (u == 0 && v == 1) || (u == 1 && (v == -1 || v == 1)) || (u == 2 && (v == 0 || v == 1))
    } else if k == 3 {
        (u == 0 && v == 0) || (u == 1 && (v == 1 || v == 2)) || (u == 2 && (v == 0 || v == 1))
    } else {
        (u == 0 && v == 1) || (u == 1 && v == 2) || (u == 2 && (v == 0 || v == 1 || v == 2))
    }
}

/// An otherwise dead grid holding the glider placed at `(r, c)` in its phase `k`.
spec fn glider_grid(height: int, width: int, r: int, c: int, k: int) -> Seq<Cell> {
    Seq::new(
        (height * width) as nat,
        |i: int|
            if glider_phase(k, rel(i / width, r, height), rel(i % width, c, width)) {
                Cell::Alive
            } else {
                Cell::Dead
            },
    )
}

/// Stepping once around the torus moves the measured coordinate by one step,
/// except across the far side, where both the step and its image lie outside
/// `[-2, 3]`.
proof fn lemma_rel_step(x: int, r: int, n: int, a: int)
    requires
        8 <= n,
        0 <= x < n,
        0 <= r < n,
        -1 <= a <= 1,
    ensures
        0 <= wrap(x + a, n) < n,
        rel(wrap(x + a, n), r, n) == rel(x, r, n) + a || (!(-2 <= rel(wrap(x + a, n), r, n) <= 3)
            && !(-2 <= rel(x, r, n) + a <= 3)),
{
    lemma_wrap_once(x + a, n);
    lemma_wrap_once(x - r + 3, n);
    lemma_wrap_once(wrap(x + a, n) - r + 3, n);
}

/// In a glider grid the cell one step from `(x, y)` is alive exactly when the
/// phase holds one step from `(x, y)`'s measured coordinates.
proof fn lemma_glider_live_at(
    height: int,
    width: int,
    r: int,
    c: int,
    k: int,
    x: int,
    y: int,
    a: int,
    b: int,
)
    requires
        8 <= height,
        8 <= width,
        0 <= r < height,
        0 <= c < width,
        0 <= x < height,
        0 <= y < width,
        -1 <= a <= 1,
        -1 <= b <= 1,
    ensures
        live_at(glider_grid(height, width, r, c, k), height, width, x + a, y + b) == if glider_phase(
            k,
            rel(x, r, height) + a,
            rel(y, c, width) + b,
        ) {
            1int
        } else {
            0
        },
{
    lemma_rel_step(x, r, height, a);
    lemma_rel_step(y, c, width, b);
    let xa = wrap(x + a, height);
    let yb = wrap(y + b, width);
    lemma_index(xa, yb, height, width);
}

/// One generation takes the glider from phase `k` to phase `k + 1`.
proof fn lemma_glider_step(height: int, width: int, r: int, c: int, k: int)
    requires
        8 <= height,
        8 <= width,
        0 <= r < height,
        0 <= c < width,
        0 <= k < 4,
    ensures
        next_generation(glider_grid(height, width, r, c, k), height, width) == glider_grid(
            height,
            width,
            r,
            c,
            k + 1,
        ),
{
    let p = glider_grid(height, width, r, c, k);
    let q = next_generation(p, height, width);
    let t = glider_grid(height, width, r, c, k + 1);
    assert forall|i: int| 0 <= i < p.len() implies #[trigger] q[i] == t[i] by {
        lemma_coords(i, height, width);
        let x = i / width;
        let y = i % width;
        lemma_glider_live_at(height, width, r, c, k, x, y, -1, -1);
        lemma_glider_live_at(height, width, r, c, k, x, y, -1, 0);
        lemma_glider_live_at(height, width, r, c, k, x, y, -1, 1);
        lemma_glider_live_at(height, width, r, c, k, x, y, 0, -1);
        lemma_glider_live_at(height, width, r, c, k, x, y, 0, 0);
        lemma_glider_live_at(height, width, r, c, k, x, y, 0, 1);
        lemma_glider_live_at(height, width, r, c, k, x, y, 1, -1);
        lemma_glider_live_at(height, width, r, c, k, x, y, 1, 0);
        lemma_glider_live_at(height, width, r, c, k, x, y, 1, 1);
        lemma_wrap_once(x, height);
        lemma_wrap_once(y, width);
        assert(p[i] == Cell::Alive <==> glider_phase(k, rel(x, r, height), rel(y, c, width)));
    }
    assert(q =~= t);
}

/// A glider placed at `(r + d, c + d)` on a dead grid, for `d` of 0 or 1, is the
/// glider placed at `(r, c)` in phase `4 * d`.
proof fn lemma_glider_placed(height: int, width: int, r: int, c: int, d: int)
    requires
        8 <= height,
        8 <= width,
        0 <= r < height,
        0 <= c < width,
        d == 0 || d == 1,
    ensures
        with_alive(
            dead_grid(height, width),
            width,
            placed(glider_offsets(), height, width, r + d, c + d),
        ) == glider_grid(height, width, r, c, 4 * d),
{
    let pl = placed(glider_offsets(), height, width, r + d, c + d);
    let o = glider_offsets();
    let p = with_alive(dead_grid(height, width), width, pl);
    let g = glider_grid(height, width, r, c, 4 * d);
    assert forall|i: int| 0 <= i < p.len() implies #[trigger] p[i] == g[i] by {
        lemma_coords(i, height, width);
        let x = i / width;
        let y = i % width;
        let u = rel(x, r, height);
        let v = rel(y, c, width);
        lemma_wrap_once(x - r + 3, height);
        lemma_wrap_once(y - c + 3, width);
        assert forall|j: int| 0 <= j < 5 implies (#[trigger] pl[j]).0 * width + pl[j].1 == i <==> (u
            == d + o[j].0 && v == d + o[j].1) by {
            lemma_wrap_once(r + d + o[j].0, height);
            lemma_wrap_once(c + d + o[j].1, width);
            lemma_index(pl[j].0, pl[j].1, height, width);
        }
        if glider_phase(4 * d, u, v) {
            let j: int = if u == d - 1 {
                0
            } else if u == d {
                1
            } else if v == d - 1 {
                2
            } else if v == d {
                3
            } else {
                4
            };
            assert(pl[j].0 * width + pl[j].1 == i);
        }
        if exists|j: int| 0 <= j < pl.len() && pl[j].0 * width + pl[j].1 == i {
            let j = choose|j: int| 0 <= j < pl.len() && pl[j].0 * width + pl[j].1 == i;
            assert(u == d + o[j].0 && v == d + o[j].1);
        }
    }
    assert(p =~= g);
}

/// A glider placed on an otherwise dead grid of at least eight rows and eight
/// columns is, four generations later, the same glider placed one row down and
/// one column right, the grid's edges wrapping around.
pub proof fn lemma_glider_moves(height: int, width: int, row: int, col: int)
    requires
        8 <= height,
        8 <= width,
        0 <= row < height,
        0 <= col < width,
    ensures
        next_generation(
            next_generation(
                next_generation(
                    next_generation(
                        with_alive(
                            dead_grid(height, width),
                            width,
                            placed(glider_offsets(), height, width, row, col),
                        ),
                        height,
                        width,
                    ),
                    height,
                    width,
                ),
                height,
                width,
            ),
            height,
            width,
        ) == with_alive(
            dead_grid(height, width),
            width,
            placed(glider_offsets(), height, width, row + 1, col + 1),
        ),
{
    lemma_glider_placed(height, width, row, col, 0);
    lemma_glider_placed(height, width, row, col, 1);
    lemma_glider_step(height, width, row, col, 0);
    lemma_glider_step(height, width, row, col, 1);
    lemma_glider_step(height, width, row, col, 2);
    lemma_glider_step(height, width, row, col, 3);
}

} // verus!

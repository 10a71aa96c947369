use vstd::prelude::*;

verus! {

/// The state of one cell of the grid.
#[derive(Clone, Copy, Debug, PartialEq, Eq, Structural)]
pub enum Cell {
    Dead,
    Alive,
}

impl Cell {
    /// 1 for a live cell, 0 for a dead one.
    pub open spec fn weight(self) -> int {
        if self == Cell::Alive {
            1
        } else {
            0
        }
    }

    /// The other state.
    pub open spec fn toggled(self) -> Cell {
        if self == Cell::Alive {
            Cell::Dead
        } else {
            Cell::Alive
        }
    }

    /// The byte that stands for the cell: 0 when dead, 1 when alive.
    pub fn as_byte(self) -> (r: u8)
        ensures
            r as int == self.weight(),
    {
        match self {
            Cell::Dead => 0,
            Cell::Alive => 1,
        }
    }
}

/// A coordinate taken around a torus of `n` rows (or columns); for `n > 0` it lies
/// in `[0, n)`.
pub open spec fn wrap(x: int, n: int) -> int {
    x % n
}

/// A grid of `height` rows and `width` columns with every cell dead.
pub open spec fn dead_grid(height: int, width: int) -> Seq<Cell> {
    Seq::new((height * width) as nat, |i: int| Cell::Dead)
}

/// The cell at `(row, col)` of a row-major grid `width` columns wide.
pub open spec fn cell_at(cells: Seq<Cell>, width: int, row: int, col: int) -> Cell {
    cells[row * width + col]
}

/// 1 if the cell at `(row, col)`, taken around the torus, is alive, else 0.
pub open spec fn live_at(cells: Seq<Cell>, height: int, width: int, row: int, col: int) -> int {
    cell_at(cells, width, wrap(row, height), wrap(col, width)).weight()
}

/// How many of the eight cells around `(row, col)` on the torus are alive.
pub open spec fn live_neighbors(
    cells: Seq<Cell>,
    height: int,
    width: int,
    row: int,
    col: int,
) -> int {
    live_at(cells, height, width, row - 1, col - 1) + live_at(cells, height, width, row - 1, col)
        + live_at(cells, height, width, row - 1, col + 1) + live_at(cells, height, width, row, col - 1)
        + live_at(cells, height, width, row, col + 1) + live_at(cells, height, width, row + 1, col - 1)
        + live_at(cells, height, width, row + 1, col) + live_at(cells, height, width, row + 1, col + 1)
}

/// The rules of the game: what a cell with `n` live neighbours becomes.
pub open spec fn next_state(cell: Cell, n: int) -> Cell {
    match cell {
        Cell::Alive => if n == 2 || n == 3 {
            Cell::Alive
        } else {
            Cell::Dead
        },
        Cell::Dead => if n == 3 {
            Cell::Alive
        } else {
            Cell::Dead
        },
    }
}

/// The generation that follows `cells` on a `height` by `width` torus.
pub open spec fn next_generation(cells: Seq<Cell>, height: int, width: int) -> Seq<Cell> {
    Seq::new(
        cells.len(),
        |i: int| next_state(cells[i], live_neighbors(cells, height, width, i / width, i % width)),
    )
}

/// `cells` with every coordinate of `coords` made alive.
pub open spec fn with_alive(cells: Seq<Cell>, width: int, coords: Seq<(int, int)>) -> Seq<Cell> {
    Seq::new(
        cells.len(),
        |i: int|
            if exists|j: int| 0 <= j < coords.len() && coords[j].0 * width + coords[j].1 == i {
                Cell::Alive
            } else {
                cells[i]
            },
    )
}

/// The glyph that shows a cell: a filled square when alive, an empty one when dead.
pub open spec fn glyph(cell: Cell) -> char {
    if cell == Cell::Alive {
        '\u{25fc}'
    } else {
        '\u{25fb}'
    }
}

/// The text of a generation: `height` lines of `width` glyphs, each ended by a newline.
pub open spec fn rendered(cells: Seq<Cell>, height: int, width: int) -> Seq<char> {
    Seq::new(
        (height * (width + 1)) as nat,
        |p: int|
            if p % (width + 1) == width {
                '\n'
            } else {
                glyph(cells[(p / (width + 1)) * width + p % (width + 1)])
            },
    )
}

/// Coordinates given as unsigned pairs, read as integers.
pub open spec fn as_coords(coords: Seq<(u32, u32)>) -> Seq<(int, int)> {
    coords.map_values(|p: (u32, u32)| (p.0 as int, p.1 as int))
}

/// Offsets from its centre, in rows and columns, of the five cells of a glider.
pub open spec fn glider_offsets() -> Seq<(int, int)> {
    seq![(-1, 0), (0, 1), (1, -1), (1, 0), (1, 1)]
}

/// Offsets from its centre, in rows and columns, of the 48 cells of a pulsar.
pub open spec fn pulsar_offsets() -> Seq<(int, int)> {
    seq![
        (-6, -4), (-6, -3), (-6, -2), (-6, 2), (-6, 3), (-6, 4),
        (-4, -6), (-4, -1), (-4, 1), (-4, 6),
        (-3, -6), (-3, -1), (-3, 1), (-3, 6),
        (-2, -6), (-2, -1), (-2, 1), (-2, 6),
        (-1, -4), (-1, -3), (-1, -2), (-1, 2), (-1, 3), (-1, 4),
        (1, -4), (1, -3), (1, -2), (1, 2), (1, 3), (1, 4),
        (2, -6), (2, -1), (2, 1), (2, 6),
        (3, -6), (3, -1), (3, 1), (3, 6),
        (4, -6), (4, -1), (4, 1), (4, 6),
        (6, -4), (6, -3), (6, -2), (6, 2), (6, 3), (6, 4),
    ]
}

/// The cells at `offsets` from `(row, col)`, taken around a `height` by `width` torus.
pub open spec fn placed(
    offsets: Seq<(int, int)>,
    height: int,
    width: int,
    row: int,
    col: int,
) -> Seq<(int, int)> {
    offsets.map_values(|o: (int, int)| (wrap(row + o.0, height), wrap(col + o.1, width)))
}

/// A coordinate `x` in `[-n, 2n)` taken around: one step of `n` at most.
pub(crate) proof fn lemma_wrap_once(x: int, n: int)
    requires
        0 < n,
        -n <= x < 2 * n,
    ensures
        wrap(x, n) == if x < 0 {
            x + n
        } else if x >= n {
            x - n
        } else {
            x
        },
{
    if x < 0 {
        vstd::arithmetic::div_mod::lemma_fundamental_div_mod_converse(x, n, -1, x + n);
    } else if x >= n {
        vstd::arithmetic::div_mod::lemma_fundamental_div_mod_converse(x, n, 1, x - n);
    } else {
        vstd::arithmetic::div_mod::lemma_fundamental_div_mod_converse(x, n, 0, x);
    }
}

/// Row and column are recovered from a row-major index, which lies in the grid.
pub(crate) proof fn lemma_index(row: int, col: int, height: int, width: int)
    requires
        0 <= row < height,
        0 <= col < width,
    ensures
        0 <= row * width + col < height * width,
        (row * width + col) / width == row,
        (row * width + col) % width == col,
{
    assert(0 <= row * width + col < height * width) by (nonlinear_arith)
        requires
            0 <= row < height,
            0 <= col < width,
    ;
    vstd::arithmetic::div_mod::lemma_fundamental_div_mod_converse(row * width + col, width, row, col);
}

/// A grid of cells on a torus that advances one generation at a time.
pub struct Universe {
    width: u32,
    height: u32,
    current_cells: Vec<Cell>,
    next_cells: Vec<Cell>,
}

impl Universe {
    /// Number of rows.
    pub closed spec fn rows(&self) -> int {
        self.height as int
    }

    /// Number of columns.
    pub closed spec fn cols(&self) -> int {
        self.width as int
    }

    /// The current generation, row by row.
    pub closed spec fn cells(&self) -> Seq<Cell> {
        self.current_cells@
    }

    /// The buffer that the next generation is written to has the grid's size.
    pub closed spec fn buffers_sized(&self) -> bool {
        self.next_cells@.len() == self.current_cells@.len()
    }

    /// The grid is not empty, its cell count fits in `u32`, and both buffers hold one
    /// entry per cell.
    pub open spec fn wf(&self) -> bool {
        &&& 0 < self.rows()
        &&& 0 < self.cols()
        &&& self.rows() * self.cols() <= u32::MAX
        &&& self.cells().len() == self.rows() * self.cols()
        &&& self.buffers_sized()
    }

    /// The generation that follows the current one.
    pub open spec fn successor(&self) -> Seq<Cell> {
        next_generation(self.cells(), self.rows(), self.cols())
    }

    /// Creates a universe of `height` rows and `width` columns, every cell dead.
    pub fn new(height: u32, width: u32) -> (r: Universe)
        requires
            0 < height,
            0 < width,
            height * width <= u32::MAX,
        ensures
            r.wf(),
            r.rows() == height,
            r.cols() == width,
            r.cells() == dead_grid(height as int, width as int),
    {
        let n = (width * height) as usize;
        let current_cells = vec![Cell::Dead; n];
        let next_cells = vec![Cell::Dead; n];
        let r = Universe { width, height, current_cells, next_cells };
        assert(r.cells() =~= dead_grid(height as int, width as int));
        r
    }

    /// Number of columns.
    pub fn width(&self) -> (r: u32)
        ensures
            r == self.cols(),
    {
        self.width
    }

    /// Number of rows.
    pub fn height(&self) -> (r: u32)
        ensures
            r == self.rows(),
    {
        self.height
    }

    /// Advances the universe by one generation: every cell is computed from the
    /// current generation alone, into the second buffer, and the buffers then
    /// trade places.
    pub fn tick(&mut self)
        requires
            old(self).wf(),
        ensures
            final(self).wf(),
            final(self).rows() == old(self).rows(),
            final(self).cols() == old(self).cols(),
            final(self).cells() == old(self).successor(),
    {
        let ghost cells0 = self.current_cells@;
        let ghost target = next_generation(cells0, self.height as int, self.width as int);
        let mut row: u32 = 0;
        while row < self.height
            invariant
                self.wf(),
                self.height == old(self).height,
                self.width == old(self).width,
                self.current_cells@ == cells0,
                cells0 == old(self).current_cells@,
                target == next_generation(cells0, self.height as int, self.width as int),
                row <= self.height,
                forall|i: int|
                    0 <= i < row * self.width ==> #[trigger] self.next_cells@[i] == target[i],
            decreases self.height - row,
        {
            let mut col: u32 = 0;
            while col < self.width
                invariant
                    self.wf(),
                    self.height == old(self).height,
                    self.width == old(self).width,
                    self.current_cells@ == cells0,
                    target == next_generation(cells0, self.height as int, self.width as int),
                    row < self.height,
                    col <= self.width,
                    forall|i: int|
                        0 <= i < row * self.width + col ==> #[trigger] self.next_cells@[i]
                            == target[i],
                decreases self.width - col,
            {
                let idx = self.get_index(row, col);
                let cell = self.current_cells[idx];
                let live_neighbors = self.live_neighbor_count(row, col);

                let next_cell = match (cell, live_neighbors) {
                    // Fewer than two live neighbours: dies of underpopulation.
                    (Cell::Alive, x) if x < 2 => Cell::Dead,
                    // Two or three: lives on.
                    (Cell::Alive, 2) | (Cell::Alive, 3) => Cell::Alive,
                    // More than three: dies of overpopulation.
                    (Cell::Alive, x) if x > 3 => Cell::Dead,
                    // Exactly three around a dead cell: it comes alive.
                    (Cell::Dead, 3) => Cell::Alive,
                    // Every other cell keeps its state.
                    (otherwise, _) => otherwise,
                };

                proof {
                    lemma_index(row as int, col as int, self.height as int, self.width as int);
                }
                self.next_cells.set(idx, next_cell);
                col += 1;
            }
            proof {
                assert((row + 1) * self.width == row * self.width + self.width) by (nonlinear_arith);
            }
            row += 1;
        }
        proof {
            assert(self.next_cells@ =~= target);
        }
        std::mem::swap(&mut self.current_cells, &mut self.next_cells);
    }

    /// Flips the cell at `(row, column)` between alive and dead. A coordinate
    /// outside the grid leaves the universe as it is.
    pub fn toggle_cell(&mut self, row: u32, column: u32)
        requires
            old(self).wf(),
        ensures
            final(self).wf(),
            final(self).rows() == old(self).rows(),
            final(self).cols() == old(self).cols(),
            final(self).cells() == if row < old(self).rows() && column < old(self).cols() {
                old(self).cells().update(
                    row * old(self).cols() + column,
                    old(self).cells()[row * old(self).cols() + column].toggled(),
                )
            } else {
                old(self).cells()
            },
    {
        proof {
            if row < self.height && column < self.width {
                lemma_index(row as int, column as int, self.height as int, self.width as int);
            }
        }
        if let Some(cell) = self.get_cell_mut(row, column) {
            *cell = match *cell {
                Cell::Dead => Cell::Alive,
                Cell::Alive => Cell::Dead,
            };
        }
    }

    /// The cell at `(row, column)`, to be changed in place; `None` where the
    /// coordinate lies outside the grid.
    fn get_cell_mut(&mut self, row: u32, column: u32) -> (r: Option<&mut Cell>)
        requires
            old(self).wf(),
        ensures
            r.is_some() == (row < old(self).height && column < old(self).width),
            final(self).width == old(self).width,
            final(self).height == old(self).height,
            final(self).next_cells@ == old(self).next_cells@,
            r.is_none() ==> final(self).current_cells@ == old(self).current_cells@,
            r.is_some() ==> {
                let idx = row * old(self).width + column;
                &&& *r.unwrap() == old(self).current_cells@[idx]
                &&& final(self).current_cells@ == old(self).current_cells@.update(
                    idx,
                    *final(r.unwrap()),
                )
            },
    {
        if row >= self.height || column >= self.width {
            None
        } else {
            let index = self.get_index(row, column);
            Some(&mut self.current_cells[index])
        }
    }

    /// Makes the cell at each `(row, column)` of `cells` alive; every coordinate
    /// must lie in the grid.
    pub fn set_cells(&mut self, cells: &[(u32, u32)])
        requires
            old(self).wf(),
            forall|j: int|
                0 <= j < cells@.len() ==> #[trigger] cells@[j].0 < old(self).rows() && cells@[j].1
                    < old(self).cols(),
        ensures
            final(self).wf(),
            final(self).rows() == old(self).rows(),
            final(self).cols() == old(self).cols(),
            final(self).cells() == with_alive(old(self).cells(), old(self).cols(), as_coords(cells@)),
    {
        let ghost cells0 = self.current_cells@;
        let ghost w = self.width as int;
        let mut k: usize = 0;
        while k < cells.len()
            invariant
                self.wf(),
                self.height == old(self).height,
                self.width == old(self).width,
                w == self.width,
                cells0 == old(self).current_cells@,
                k <= cells@.len(),
                forall|j: int|
                    0 <= j < cells@.len() ==> #[trigger] cells@[j].0 < old(self).rows()
                        && cells@[j].1 < old(self).cols(),
                self.current_cells@.len() == cells0.len(),
                forall|i: int|
                    0 <= i < cells0.len() ==> #[trigger] self.current_cells@[i] == if exists|j: int|
                        0 <= j < k && cells@[j].0 * w + cells@[j].1 == i {
                        Cell::Alive
                    } else {
                        cells0[i]
                    },
            decreases cells@.len() - k,
        {
            let (row, col) = cells[k];
            let idx = self.get_index(row, col);
            self.current_cells.set(idx, Cell::Alive);
            proof {
                assert forall|i: int| 0 <= i < cells0.len() implies #[trigger] self.current_cells@[i]
                    == if exists|j: int| 0 <= j < k + 1 && cells@[j].0 * w + cells@[j].1 == i {
                    Cell::Alive
                } else {
                    cells0[i]
                } by {
                    if i == idx {
                        assert(cells@[k as int].0 * w + cells@[k as int].1 == i);
                    }
                }
            }
            k += 1;
        }
        proof {
            let coords = as_coords(cells@);
            assert forall|i: int| 0 <= i < cells0.len() implies #[trigger] self.current_cells@[i]
                == with_alive(cells0, w, coords)[i] by {
                if exists|j: int| 0 <= j < cells@.len() && cells@[j].0 * w + cells@[j].1 == i {
                    let j = choose|j: int| 0 <= j < cells@.len() && cells@[j].0 * w + cells@[j].1 == i;
                    assert(coords[j].0 * w + coords[j].1 == i);
                }
                if exists|j: int| 0 <= j < coords.len() && coords[j].0 * w + coords[j].1 == i {
                    let j = choose|j: int| 0 <= j < coords.len() && coords[j].0 * w + coords[j].1 == i;
                    assert(cells@[j].0 * w + cells@[j].1 == i);
                }
            }
            assert(self.current_cells@ =~= with_alive(cells0, w, coords));
        }
    }

    /// Makes the cell at each `(row, column)` of `cells` alive when every
    /// coordinate lies in the grid, and returns whether it did; otherwise the
    /// universe is left as it is.
    pub fn try_set_cells(&mut self, cells: &[(u32, u32)]) -> (r: bool)
        requires
            old(self).wf(),
        ensures
            final(self).wf(),
            final(self).rows() == old(self).rows(),
            final(self).cols() == old(self).cols(),
            r == forall|j: int|
                0 <= j < cells@.len() ==> #[trigger] cells@[j].0 < old(self).rows() && cells@[j].1
                    < old(self).cols(),
            r ==> final(self).cells() == with_alive(
                old(self).cells(),
                old(self).cols(),
                as_coords(cells@),
            ),
            !r ==> final(self).cells() == old(self).cells(),
    {
        let mut k: usize = 0;
        while k < cells.len()
            invariant
                self.wf(),
                self.height == old(self).height,
                self.width == old(self).width,
                self.current_cells@ == old(self).current_cells@,
                k <= cells@.len(),
                forall|j: int|
                    0 <= j < k ==> #[trigger] cells@[j].0 < self.height && cells@[j].1 < self.width,
            decreases cells@.len() - k,
        {
            let (row, col) = cells[k];
            if row >= self.height || col >= self.width {
                return false;
            }
            k += 1;
        }
        self.set_cells(cells);
        true
    }

    /// Makes alive the five cells of a glider around `(row, column)`, the grid's
    /// edges wrapping around.
    pub fn make_glider(&mut self, row: u32, column: u32)
        requires
            old(self).wf(),
            row < old(self).rows(),
            column < old(self).cols(),
        ensures
            final(self).wf(),
            final(self).rows() == old(self).rows(),
            final(self).cols() == old(self).cols(),
            final(self).cells() == with_alive(
                old(self).cells(),
                old(self).cols(),
                placed(glider_offsets(), old(self).rows(), old(self).cols(), row as int, column as int),
            ),
    {
        let cell_up = self.get_row_up_wrapping(row, 1);
        let cell_down = self.get_row_down_wrapping(row, 1);
        let cell_left = self.get_next_column_left_wrapping(column);
        let cell_right = self.get_next_column_right_wrapping(column);
        let glider_cells = vec![
            (cell_up, column),
            (row, cell_right),
            (cell_down, cell_left),
            (cell_down, column),
            (cell_down, cell_right),
        ];
        proof {
            lemma_wrap_once(row as int, self.rows());
            lemma_wrap_once(column as int, self.cols());
            assert(as_coords(glider_cells@) =~= placed(
                glider_offsets(),
                self.rows(),
                self.cols(),
                row as int,
                column as int,
            ));
        }
        self.set_cells(glider_cells.as_slice());
    }

    /// Makes alive the 48 cells of a pulsar around `(row, column)`, the grid's
    /// edges wrapping around; the pattern reaches six cells out, so the grid is at
    /// least six cells in each direction.
    pub fn make_pulsar(&mut self, row: u32, column: u32)
        requires
            old(self).wf(),
            6 <= old(self).rows(),
            6 <= old(self).cols(),
            row < old(self).rows(),
            column < old(self).cols(),
        ensures
            final(self).wf(),
            final(self).rows() == old(self).rows(),
            final(self).cols() == old(self).cols(),
            final(self).cells() == with_alive(
                old(self).cells(),
                old(self).cols(),
                placed(pulsar_offsets(), old(self).rows(), old(self).cols(), row as int, column as int),
            ),
    {
        let up_6 = self.get_row_up_wrapping(row, 6);
        let up_4 = self.get_row_up_wrapping(row, 4);
        let up_3 = self.get_row_up_wrapping(row, 3);
        let up_2 = self.get_row_up_wrapping(row, 2);
        let up_1 = self.get_row_up_wrapping(row, 1);

        let down_6 = self.get_row_down_wrapping(row, 6);
        let down_4 = self.get_row_down_wrapping(row, 4);
        let down_3 = self.get_row_down_wrapping(row, 3);
        let down_2 = self.get_row_down_wrapping(row, 2);
        let down_1 = self.get_row_down_wrapping(row, 1);

        let left_6 = self.get_column_left_wrapping(column, 6);
        let left_4 = self.get_column_left_wrapping(column, 4);
        let left_3 = self.get_column_left_wrapping(column, 3);
        let left_2 = self.get_column_left_wrapping(column, 2);
        let left_1 = self.get_column_left_wrapping(column, 1);

        let right_6 = self.get_column_right_wrapping(column, 6);
        let right_4 = self.get_column_right_wrapping(column, 4);
        let right_3 = self.get_column_right_wrapping(column, 3);
        let right_2 = self.get_column_right_wrapping(column, 2);
        let right_1 = self.get_column_right_wrapping(column, 1);
        let pulsar_cells = vec![
            (up_6, left_4), (up_6, left_3), (up_6, left_2),
            (up_6, right_2), (up_6, right_3), (up_6, right_4),
            (up_4, left_6), (up_4, left_1), (up_4, right_1), (up_4, right_6),
            (up_3, left_6), (up_3, left_1), (up_3, right_1), (up_3, right_6),
            (up_2, left_6), (up_2, left_1), (up_2, right_1), (up_2, right_6),
            (up_1, left_4), (up_1, left_3), (up_1, left_2),
            (up_1, right_2), (up_1, right_3), (up_1, right_4),
            (down_1, left_4), (down_1, left_3), (down_1, left_2),
            (down_1, right_2), (down_1, right_3), (down_1, right_4),
            (down_2, left_6), (down_2, left_1), (down_2, right_1), (down_2, right_6),
            (down_3, left_6), (down_3, left_1), (down_3, right_1), (down_3, right_6),
            (down_4, left_6), (down_4, left_1), (down_4, right_1), (down_4, right_6),
            (down_6, left_4), (down_6, left_3), (down_6, left_2),
            (down_6, right_2), (down_6, right_3), (down_6, right_4),
        ];
        proof {
            assert(as_coords(pulsar_cells@) =~= placed(
                pulsar_offsets(),
                self.rows(),
                self.cols(),
                row as int,
                column as int,
            ));
        }
        self.set_cells(pulsar_cells.as_slice());
    }

    /// The current generation as text: one line per row, ended by a newline,
    /// with one glyph per cell.
    pub fn render(&self) -> (r: String)
        requires
            self.wf(),
        ensures
            r@ == rendered(self.cells(), self.rows(), self.cols()),
    {
        let ghost w = self.width as int;
        let ghost text = rendered(self.cells(), self.rows(), self.cols());
        let mut out = String::new();
        let mut row: u32 = 0;
        while row < self.height
            invariant
                self.wf(),
                w == self.width,
                text == rendered(self.cells(), self.rows(), self.cols()),
                row <= self.height,
                out@ == text.take(row * (w + 1)),
            decreases self.height - row,
        {
            let mut col: u32 = 0;
            while col < self.width
                invariant
                    self.wf(),
                    w == self.width,
                    text == rendered(self.cells(), self.rows(), self.cols()),
                    row < self.height,
                    col <= self.width,
                    out@ == text.take(row * (w + 1) + col),
                decreases self.width - col,
            {
                let idx = self.get_index(row, col);
                let ghost k = row * (w + 1) + col;
                proof {
                    lemma_index(row as int, col as int, self.height as int, w + 1);
                    reveal_strlit("\u{25fb}");
                    reveal_strlit("\u{25fc}");
                }
                if self.current_cells[idx] == Cell::Dead {
                    out.append("\u{25fb}");
                } else {
                    out.append("\u{25fc}");
                }
                proof {
                    assert(out@ =~= text.take(k + 1));
                }
                col += 1;
            }
            let ghost k = row * (w + 1) + w;
            proof {
                lemma_index(row as int, w, self.height as int, w + 1);
                reveal_strlit("\n");
                assert((row + 1) * (w + 1) == k + 1) by (nonlinear_arith)
                    requires
                        k == row * (w + 1) + w,
                ;
            }
            out.append("\n");
            proof {
                assert(out@ =~= text.take(k + 1));
            }
            row += 1;
        }
        proof {
            assert(text.len() == self.height * (w + 1));
            assert(out@ =~= text);
        }
        out
    }

    /// The current generation, row by row.
    pub fn get_cells(&self) -> (r: &[Cell])
        ensures
            r@ == self.cells(),
    {
        self.current_cells.as_slice()
    }

    /// Row-major index of `(row, column)`; the coordinates must lie in the grid.
    fn get_index(&self, row: u32, column: u32) -> (r: usize)
        requires
            self.wf(),
            row < self.height,
            column < self.width,
        ensures
            r == row * self.width + column,
            r < self.current_cells@.len(),
    {
        proof {
            lemma_index(row as int, column as int, self.height as int, self.width as int);
        }
        (row * self.width + column) as usize
    }

    /// The row above `row`, the last row above the first.
    fn get_next_row_up_wrapping(&self, row: u32) -> (r: u32)
        requires
            self.wf(),
            row < self.height,
        ensures
            r == wrap(row - 1, self.rows()),
            r < self.height,
    {
        proof {
            lemma_wrap_once(row - 1, self.rows());
        }
        if row == 0 {
            self.height - 1
        } else {
            row - 1
        }
    }

    /// The row below `row`, the first row below the last.
    fn get_next_row_down_wrapping(&self, row: u32) -> (r: u32)
        requires
            self.wf(),
            row < self.height,
        ensures
            r == wrap(row + 1, self.rows()),
            r < self.height,
    {
        proof {
            lemma_wrap_once(row + 1, self.rows());
        }
        if row == self.height - 1 {
            0
        } else {
            row + 1
        }
    }

    /// The column left of `column`, the last column left of the first.
    fn get_next_column_left_wrapping(&self, column: u32) -> (r: u32)
        requires
            self.wf(),
            column < self.width,
        ensures
            r == wrap(column - 1, self.cols()),
            r < self.width,
    {
        proof {
            lemma_wrap_once(column - 1, self.cols());
        }
        if column == 0 {
            self.width - 1
        } else {
            column - 1
        }
    }

    /// The column right of `column`, the first column right of the last.
    fn get_next_column_right_wrapping(&self, column: u32) -> (r: u32)
        requires
            self.wf(),
            column < self.width,
        ensures
            r == wrap(column + 1, self.cols()),
            r < self.width,
    {
        proof {
            lemma_wrap_once(column + 1, self.cols());
        }
        if column >= self.width - 1 {
            0
        } else {
            column + 1
        }
    }

    /// The row `up` rows above `row`, counting on from the last row past the first.
    fn get_row_up_wrapping(&self, row: u32, up: u32) -> (r: u32)
        requires
            self.wf(),
            row < self.height,
            up <= self.height,
        ensures
            r == wrap(row - up, self.rows()),
            r < self.height,
    {
        proof {
            lemma_wrap_once(row - up, self.rows());
        }
        if row < up {
            self.height - (up - row)
        } else {
            row - up
        }
    }

    /// The row `down` rows below `row`, counting on from the first row past the last.
    fn get_row_down_wrapping(&self, row: u32, down: u32) -> (r: u32)
        requires
            self.wf(),
            row < self.height,
            down <= self.height,
        ensures
            r == wrap(row + down, self.rows()),
            r < self.height,
    {
        proof {
            lemma_wrap_once(row + down, self.rows());
        }
        if row >= self.height - down {
            row - (self.height - down)
        } else {
            row + down
        }
    }

    /// The column `left` columns left of `column`, counting on from the last column
    /// past the first.
    fn get_column_left_wrapping(&self, column: u32, left: u32) -> (r: u32)
        requires
            self.wf(),
            column < self.width,
            left <= self.width,
        ensures
            r == wrap(column - left, self.cols()),
            r < self.width,
    {
        proof {
            lemma_wrap_once(column - left, self.cols());
        }
        if column < left {
            self.width - (left - column)
        } else {
            column - left
        }
    }

    /// The column `right` columns right of `column`, counting on from the first column
    /// past the last.
    fn get_column_right_wrapping(&self, column: u32, right: u32) -> (r: u32)
        requires
            self.wf(),
            column < self.width,
            right <= self.width,
        ensures
            r == wrap(column + right, self.cols()),
            r < self.width,
    {
        proof {
            lemma_wrap_once(column + right, self.cols());
        }
        if column >= self.width - right {
            column - (self.width - right)
        } else {
            column + right
        }
    }

    /// How many of the eight cells around `(row, column)` are alive, the grid's
    /// edges wrapping around.
    fn live_neighbor_count(&self, row: u32, column: u32) -> (r: u8)
        requires
            self.wf(),
            row < self.height,
            column < self.width,
        ensures
            r == live_neighbors(self.cells(), self.rows(), self.cols(), row as int, column as int),
            r <= 8,
    {
        let mut count: u8 = 0;

        let cell_up = self.get_next_row_up_wrapping(row);
        let cell_down = self.get_next_row_down_wrapping(row);
        let cell_left = self.get_next_column_left_wrapping(column);
        let cell_right = self.get_next_column_right_wrapping(column);

        let nw = self.get_index(cell_up, cell_left);
        count += self.current_cells[nw].as_byte();

        let n = self.get_index(cell_up, column);
        count += self.current_cells[n].as_byte();

        let ne = self.get_index(cell_up, cell_right);
        count += self.current_cells[ne].as_byte();

        let w = self.get_index(row, cell_left);
        count += self.current_cells[w].as_byte();

        let e = self.get_index(row, cell_right);
        count += self.current_cells[e].as_byte();

        let sw = self.get_index(cell_down, cell_left);
        count += self.current_cells[sw].as_byte();

        let s = self.get_index(cell_down, column);
        count += self.current_cells[s].as_byte();

        let se = self.get_index(cell_down, cell_right);
        count += self.current_cells[se].as_byte();

        proof {
            lemma_wrap_once(row as int, self.rows());
            lemma_wrap_once(column as int, self.cols());
        }
        count
    }
}

} // verus!

//! The mathematical model: a rectangular grid of cell states on a torus, the
//! neighbour count and the transition rule.

use vstd::prelude::*;

verus! {

/// A grid of cell states in row-major order.
pub struct Grid {
    pub width: nat,
    pub height: nat,
    pub cells: Seq<bool>,
}

/// The transition rule: a live cell stays alive with two or three live
/// neighbours, a dead cell becomes alive with exactly three.
pub open spec fn next_state(alive: bool, live_neighbours: nat) -> bool {
    if alive {
        live_neighbours == 2 || live_neighbours == 3
    } else {
        live_neighbours == 3
    }
}

impl Grid {
    /// There is one state for each cell.
    pub open spec fn wf(self) -> bool {
        self.cells.len() == self.width * self.height
    }

    /// `(row, col)` names a cell of the grid.
    pub open spec fn in_range(self, row: int, col: int) -> bool {
        0 <= row < self.height && 0 <= col < self.width
    }

    /// The place of cell `(row, col)` in `cells`.
    pub open spec fn index(self, row: int, col: int) -> int {
        row * self.width + col
    }

    /// The state of cell `(row, col)`.
    pub open spec fn alive(self, row: int, col: int) -> bool {
        self.cells[self.index(row, col)]
    }

    /// The row above `row`; above the first row lies the last.
    pub open spec fn above(self, row: int) -> int {
        if row == 0 {
            self.height - 1
        } else {
            row - 1
        }
    }

    /// The row below `row`; below the last row lies the first.
    pub open spec fn below(self, row: int) -> int {
        if row + 1 == self.height {
            0
        } else {
            row + 1
        }
    }

    /// The column left of `col`; left of the first column lies the last.
    pub open spec fn left(self, col: int) -> int {
        if col == 0 {
            self.width - 1
        } else {
            col - 1
        }
    }

    /// The column right of `col`; right of the last column lies the first.
    pub open spec fn right(self, col: int) -> int {
        if col + 1 == self.width {
            0
        } else {
            col + 1
        }
    }

    /// 1 if cell `(row, col)` is alive, else 0.
    pub open spec fn one(self, row: int, col: int) -> nat {
        if self.alive(row, col) {
            1
        } else {
            0
        }
    }

    /// The number of live cells among the eight that touch `(row, col)` on
    /// the torus.
    pub open spec fn live_around(self, row: int, col: int) -> nat {
        self.one(self.above(row), self.left(col)) + self.one(self.above(row), col) + self.one(
            self.above(row),
            self.right(col),
        ) + self.one(row, self.left(col)) + self.one(row, self.right(col)) + self.one(
            self.below(row),
            self.left(col),
        ) + self.one(self.below(row), col) + self.one(self.below(row), self.right(col))
    }

    /// What the cell at offset `(dr, dc)` from `(row, col)` adds to the
    /// neighbour count: 1 if it is alive, and nothing if both offsets are zero.
    pub open spec fn neighbour_term(self, row: int, col: int, dr: int, dc: int) -> nat {
        if !(dr == 0 && dc == 0) && self.alive(
            (row + dr) % (self.height as int),
            (col + dc) % (self.width as int),
        ) {
            1
        } else {
            0
        }
    }

    /// What the three cells at row offset `dr` add to the neighbour count,
    /// the first `upto` of them: the column offsets are `width - 1`, which
    /// wraps round to the column on the left, then 0, then 1.
    pub open spec fn row_terms(self, row: int, col: int, dr: int, upto: int) -> nat {
        (if upto >= 1 {
            self.neighbour_term(row, col, dr, self.width - 1)
        } else {
            0
        }) + (if upto >= 2 {
            self.neighbour_term(row, col, dr, 0)
        } else {
            0
        }) + (if upto >= 3 {
            self.neighbour_term(row, col, dr, 1)
        } else {
            0
        })
    }

    /// What the first `upto` row offsets add to the neighbour count: they
    /// are `height - 1`, which wraps round to the row above, then 0, then 1.
    pub open spec fn rows_terms(self, row: int, col: int, upto: int) -> nat {
        (if upto >= 1 {
            self.row_terms(row, col, self.height - 1, 3)
        } else {
            0
        }) + (if upto >= 2 {
            self.row_terms(row, col, 0, 3)
        } else {
            0
        }) + (if upto >= 3 {
            self.row_terms(row, col, 1, 3)
        } else {
            0
        })
    }

    /// The number of live cells around `(row, col)`, with wraparound at the
    /// edges. On a grid of at least two rows and two columns these are eight
    /// cells; with a single row or column an offset of `height - 1` or
    /// `width - 1` is zero itself, and the pairs it makes with a zero are
    /// left out as well.
    pub open spec fn live_neighbours(self, row: int, col: int) -> nat {
        self.rows_terms(row, col, 3)
    }

    /// The state of the cell at place `i` one generation on.
    pub open spec fn next_cell(self, i: int) -> bool {
        next_state(
            self.cells[i],
            self.live_neighbours(i / (self.width as int), i % (self.width as int)),
        )
    }

    /// The grid one generation on: every cell follows the rule on the states
    /// of this generation.
    pub open spec fn step(self) -> Grid {
        Grid {
            width: self.width,
            height: self.height,
            cells: Seq::new(self.cells.len(), |i: int| self.next_cell(i)),
        }
    }

    /// The grid with the state of `(row, col)` inverted.
    pub open spec fn toggled(self, row: int, col: int) -> Grid {
        Grid {
            width: self.width,
            height: self.height,
            cells: self.cells.update(self.index(row, col), !self.alive(row, col)),
        }
    }

    /// Every pair of `coords` names a cell of the grid.
    pub open spec fn holds_all(self, coords: Seq<(u32, u32)>) -> bool {
        forall|k: int|
            0 <= k < coords.len() ==> self.in_range(
                (#[trigger] coords[k]).0 as int,
                coords[k].1 as int,
            )
    }

    /// `coords` lists the cell at place `i` among its first `upto` pairs.
    pub open spec fn lists(self, coords: Seq<(u32, u32)>, upto: int, i: int) -> bool {
        exists|k: int|
            0 <= k < upto && k < coords.len() && #[trigger] self.index(
                coords[k].0 as int,
                coords[k].1 as int,
            ) == i
    }

    /// The grid with every cell that `coords` lists alive, and the others
    /// as they are.
    pub open spec fn with_alive(self, coords: Seq<(u32, u32)>) -> Grid {
        Grid {
            width: self.width,
            height: self.height,
            cells: Seq::new(
                self.cells.len(),
                |i: int| self.cells[i] || self.lists(coords, coords.len() as int, i),
            ),
        }
    }

    /// The grid of the given size with every cell dead.
    pub open spec fn dead(width: nat, height: nat) -> Grid {
        Grid { width, height, cells: Seq::new(width * height, |i: int| false) }
    }
}

/// A cell's place lies within the grid's cells.
pub proof fn lemma_index_in_bounds(g: Grid, row: int, col: int)
    requires
        g.in_range(row, col),
    ensures
        0 <= g.index(row, col) < g.width * g.height,
{
    assert(0 <= row * g.width && row * g.width + g.width <= g.height * g.width)
        by (nonlinear_arith)
        requires
            0 <= row < g.height,
    ;
    assert(g.height * g.width == g.width * g.height) by (nonlinear_arith);
}

/// Row and column are found again from a cell's place.
pub proof fn lemma_index_div_mod(g: Grid, row: int, col: int)
    requires
        g.in_range(row, col),
    ensures
        g.index(row, col) / (g.width as int) == row,
        g.index(row, col) % (g.width as int) == col,
{
    vstd::arithmetic::div_mod::lemma_fundamental_div_mod_converse(
        g.index(row, col),
        g.width as int,
        row,
        col,
    );
}

/// Every place within the grid's cells is the place of one cell.
pub proof fn lemma_place_in_range(g: Grid, i: int)
    requires
        0 <= i < g.width * g.height,
    ensures
        g.in_range(i / (g.width as int), i % (g.width as int)),
        g.index(i / (g.width as int), i % (g.width as int)) == i,
{
    let w = g.width as int;
    let h = g.height as int;
    assert(w > 0) by (nonlinear_arith)
        requires
            0 <= i < w * h,
            w >= 0,
    ;
    vstd::arithmetic::div_mod::lemma_fundamental_div_mod(i, w);
    vstd::arithmetic::div_mod::lemma_mod_bound(i, w);
    assert(w * (i / w) == (i / w) * w) by (nonlinear_arith);
    assert(0 <= i / w < h) by (nonlinear_arith)
        requires
            0 <= i < w * h,
            w > 0,
            i == w * (i / w) + i % w,
            0 <= i % w < w,
    ;
}

/// Adding `n - 1` and reducing modulo `n` steps back by one with wraparound,
/// adding 1 steps forward, and adding 0 stays.
pub proof fn lemma_wrap(x: int, n: int)
    requires
        0 <= x < n,
    ensures
        (x + (n - 1)) % n == (if x == 0 {
            n - 1
        } else {
            x - 1
        }),
        (x + 0) % n == x,
        (x + 1) % n == (if x + 1 == n {
            0
        } else {
            x + 1
        }),
{
    vstd::arithmetic::div_mod::lemma_small_mod(x as nat, n as nat);
    if x == 0 {
        vstd::arithmetic::div_mod::lemma_small_mod((n - 1) as nat, n as nat);
    } else {
        vstd::arithmetic::div_mod::lemma_fundamental_div_mod_converse(x + (n - 1), n, 1, x - 1);
    }
    if x + 1 == n {
        vstd::arithmetic::div_mod::lemma_fundamental_div_mod_converse(x + 1, n, 1, 0);
    } else {
        vstd::arithmetic::div_mod::lemma_small_mod((x + 1) as nat, n as nat);
    }
}

/// On a grid of at least two rows and two columns the neighbour count is the
/// number of live cells among the eight that touch the cell.
pub proof fn lemma_live_neighbours_around(g: Grid, row: int, col: int)
    requires
        g.in_range(row, col),
        g.height >= 2,
        g.width >= 2,
    ensures
        g.live_neighbours(row, col) == g.live_around(row, col),
{
    lemma_wrap(row, g.height as int);
    lemma_wrap(col, g.width as int);
}

/// One generation on, a cell of a well-formed grid is in the state that the
/// rule gives for its own state and its neighbour count.
pub proof fn lemma_step_cell(g: Grid, row: int, col: int)
    requires
        g.wf(),
        g.in_range(row, col),
    ensures
        g.step().wf(),
        g.step().alive(row, col) == next_state(g.alive(row, col), g.live_neighbours(row, col)),
{
    lemma_index_in_bounds(g, row, col);
    lemma_index_div_mod(g, row, col);
}

} // verus!

//! The engine: a universe of cells that lives in a bit set and moves on one
//! generation at a time.

use fixedbitset::FixedBitSet;
use vstd::prelude::*;
use crate::bitset::{bit_at, bit_len, blocks};
use crate::grid::{lemma_index_div_mod, lemma_index_in_bounds, Grid};
use crate::packing::{
    block_count, cell_of, is_packed, lemma_set_cell, lemma_toggle_cell, lemma_zero_words, unpack,
};

verus! {

/// Why an operation was turned down. The universe is then as it was.
#[derive(Clone, Copy, Debug, PartialEq, Eq, Structural)]
pub enum GridError {
    /// A row at or past the height, or a column at or past the width.
    IndexOutOfRange,
    /// The cells of a grid of this size cannot be numbered in 32 bits.
    AllocationFailure,
}

/// The number of columns of a universe of the usual size.
pub const DEFAULT_WIDTH: u32 = 64;

/// The number of rows of a universe of the usual size.
pub const DEFAULT_HEIGHT: u32 = 64;

/// A toroidal grid of cells, one bit for each, in row-major order.
pub struct Universe {
    width: u32,
    height: u32,
    cells: FixedBitSet,
}

impl View for Universe {
    type V = Grid;

    closed spec fn view(&self) -> Grid {
        Grid {
            width: self.width as nat,
            height: self.height as nat,
            cells: unpack(blocks(self.cells), (self.width * self.height) as nat),
        }
    }
}

impl Universe {
    /// The universe is well formed: the bit set holds one bit for each cell,
    /// in just enough blocks, and nothing past the last cell; and every
    /// cell's place fits in 32 bits. Every universe that `new` makes is, and
    /// every operation keeps it so.
    pub closed spec fn wf(&self) -> bool {
        &&& self.width * self.height <= u32::MAX
        &&& bit_len(self.cells) == self.width * self.height
        &&& is_packed(
            blocks(self.cells),
            unpack(blocks(self.cells), (self.width * self.height) as nat),
        )
    }

    /// The model of a well-formed universe has one state for each cell, and
    /// its cells can be numbered in 32 bits.
    pub proof fn lemma_view_wf(&self)
        requires
            self.wf(),
        ensures
            self@.wf(),
            self@.width * self@.height <= u32::MAX,
    {
    }

    /// A universe of `width` columns and `height` rows, in which `seed_fn`
    /// decides the first state of each cell. Fails, with
    /// `GridError::AllocationFailure`, where the number of cells does not fit
    /// in 32 bits, and only there.
    pub fn new<F: Fn() -> bool>(width: u32, height: u32, seed_fn: F) -> (made: Result<
        Universe,
        GridError,
    >)
        requires
            call_requires(seed_fn, ()),
        ensures
            made is Ok <==> width * height <= u32::MAX,
            made matches Ok(u) ==> {
                &&& u.wf()
                &&& u@.width == width
                &&& u@.height == height
                &&& forall|i: int|
                    0 <= i < u@.cells.len() ==> call_ensures(seed_fn, (), #[trigger] u@.cells[i])
            },
            made matches Err(e) ==> e == GridError::AllocationFailure,
    {
        let size: usize = match width.checked_mul(height) {
            Some(n) => n as usize,
            None => {
                return Err(GridError::AllocationFailure);
            },
        };
        let mut cells = FixedBitSet::with_capacity(size);
        proof {
            lemma_zero_words(size as nat);
        }
        for i in 0..size
            invariant
                call_requires(seed_fn, ()),
                bit_len(cells) == size,
                blocks(cells).len() == block_count(size as nat),
                forall|j: int|
                    0 <= j < i ==> call_ensures(seed_fn, (), #[trigger] cell_of(blocks(cells), j)),
                forall|j: int|
                    i <= j < 32 * blocks(cells).len() ==> !#[trigger] cell_of(blocks(cells), j),
        {
            let alive = seed_fn();
            proof {
                lemma_set_cell(blocks(cells), i as int, alive);
            }
            cells.set(i, alive);
        }
        Ok(Universe { width, height, cells })
    }

    /// A universe of the usual size, 64 by 64, in which `seed_fn` decides the
    /// first state of each cell.
    pub fn with_default_size<F: Fn() -> bool>(seed_fn: F) -> (made: Universe)
        requires
            call_requires(seed_fn, ()),
        ensures
            made.wf(),
            made@.width == DEFAULT_WIDTH,
            made@.height == DEFAULT_HEIGHT,
            forall|i: int|
                0 <= i < made@.cells.len() ==> call_ensures(seed_fn, (), #[trigger] made@.cells[i]),
    {
        match Universe::new(DEFAULT_WIDTH, DEFAULT_HEIGHT, seed_fn) {
            Ok(universe) => universe,
            Err(_) => unreached(),
        }
    }

    /// The number of columns.
    pub fn width(&self) -> (width: u32)
        ensures
            width == self@.width,
    {
        self.width
    }

    /// The number of rows.
    pub fn height(&self) -> (height: u32)
        ensures
            height == self@.height,
    {
        self.height
    }

    /// The cells as they are stored: 32 to a word, the first of them in the
    /// lowest bit, row after row. The view lasts until the universe is next
    /// changed.
    pub fn cells(&self) -> (words: &[u32])
        requires
            self.wf(),
        ensures
            is_packed(words@, self@.cells),
    {
        self.cells.as_slice()
    }

    /// The place of cell `(row, col)` in the bit set.
    fn get_index(&self, row: u32, col: u32) -> (idx: usize)
        requires
            self.wf(),
            self@.in_range(row as int, col as int),
        ensures
            idx == self@.index(row as int, col as int),
            idx < self@.cells.len(),
    {
        proof {
            lemma_index_in_bounds(self@, row as int, col as int);
        }
        (row * self.width + col) as usize
    }

    /// The number of live cells around `(row, col)`, with wraparound at the
    /// edges. `(row, col)` must name a cell of the universe.
    pub fn live_neighbour_count(&self, row: u32, col: u32) -> (count: u8)
        requires
            self.wf(),
            self@.in_range(row as int, col as int),
        ensures
            count == self@.live_neighbours(row as int, col as int),
    {
        let delta_rows: [u32; 3] = [self.height - 1, 0, 1];
        let delta_cols: [u32; 3] = [self.width - 1, 0, 1];
        let mut count: u8 = 0;
        for i in 0..3usize
            invariant
                self.wf(),
                self@.in_range(row as int, col as int),
                delta_rows@ == seq![(self.height - 1) as u32, 0u32, 1u32],
                delta_cols@ == seq![(self.width - 1) as u32, 0u32, 1u32],
                count == self@.rows_terms(row as int, col as int, i as int),
                count <= 3 * i,
        {
            let delta_row: u32 = delta_rows[i];
            let ghost before = count;
            for j in 0..3usize
                invariant
                    self.wf(),
                    self@.in_range(row as int, col as int),
                    delta_cols@ == seq![(self.width - 1) as u32, 0u32, 1u32],
                    delta_row == 0 || delta_row == 1 || delta_row == self.height - 1,
                    before <= 3 * i,
                    i < 3,
                    count == before + self@.row_terms(
                        row as int,
                        col as int,
                        delta_row as int,
                        j as int,
                    ),
                    count <= before + j,
            {
                let delta_col: u32 = delta_cols[j];
                if !(delta_row == 0 && delta_col == 0) {
                    let neighbour_row: u32 = ((row as u64 + delta_row as u64) % (self.height
                        as u64)) as u32;
                    let neighbour_col: u32 = ((col as u64 + delta_col as u64) % (self.width
                        as u64)) as u32;
                    let idx: usize = self.get_index(neighbour_row, neighbour_col);
                    if bit_at(&self.cells, idx) {
                        count += 1;
                    }
                }
            }
        }
        count
    }

    /// Moves the universe on by one generation: every cell follows the rule
    /// on the states that its neighbours had before the call.
    pub fn tick(&mut self)
        requires
            old(self).wf(),
        ensures
            final(self).wf(),
            final(self)@ == old(self)@.step(),
    {
        proof {
            assert(0 * self.width == 0) by (nonlinear_arith);
        }
        let mut next = self.cells.clone();
        for row in 0..self.height
            invariant
                self.wf(),
                *self == *old(self),
                bit_len(next) == bit_len(self.cells),
                blocks(next).len() == blocks(self.cells).len(),
                forall|i: int|
                    0 <= i < row * self.width ==> #[trigger] cell_of(blocks(next), i)
                        == self@.next_cell(i),
                forall|i: int|
                    self.width * self.height <= i < 32 * blocks(next).len() ==> !#[trigger] cell_of(
                        blocks(next),
                        i,
                    ),
        {
            for col in 0..self.width
                invariant
                    self.wf(),
                    *self == *old(self),
                    row < self.height,
                    bit_len(next) == bit_len(self.cells),
                    blocks(next).len() == blocks(self.cells).len(),
                    forall|i: int|
                        0 <= i < row * self.width + col ==> #[trigger] cell_of(blocks(next), i)
                            == self@.next_cell(i),
                    forall|i: int|
                        self.width * self.height <= i < 32 * blocks(next).len() ==> !#[trigger] cell_of(
                            blocks(next),
                            i,
                        ),
            {
                let idx: usize = self.get_index(row, col);
                let cell = bit_at(&self.cells, idx);
                let live_neighbors: u8 = self.live_neighbour_count(row, col);

                let enabled = match (cell, live_neighbors) {
                    (true, x) if x < 2 => false,
                    (true, x) if x == 2 || x == 3 => true,
                    (true, x) if x > 3 => false,
                    (false, x) if x == 3 => true,
                    (otherwise, _) => otherwise,
                };
                proof {
                    lemma_index_div_mod(self@, row as int, col as int);
                    lemma_set_cell(blocks(next), idx as int, enabled);
                    assert(enabled == self@.next_cell(idx as int));
                }
                next.set(idx, enabled);
            }
            proof {
                assert(row * self.width + self.width == (row + 1) * self.width)
                    by (nonlinear_arith);
            }
        }
        proof {
            assert(self.height * self.width == self.width * self.height) by (nonlinear_arith);
        }
        self.cells = next;
        proof {
            assert(self@.cells =~= old(self)@.step().cells);
        }
    }

    /// Inverts the state of cell `(row, column)`. Fails, with
    /// `GridError::IndexOutOfRange`, where the universe has no such cell.
    pub fn toggle_cell(&mut self, row: u32, column: u32) -> (done: Result<(), GridError>)
        requires
            old(self).wf(),
        ensures
            final(self).wf(),
            old(self)@.in_range(row as int, column as int) ==> done is Ok && final(self)@ == old(
                self,
            )@.toggled(row as int, column as int),
            !old(self)@.in_range(row as int, column as int) ==> done == Err::<(), GridError>(
                GridError::IndexOutOfRange,
            ) && final(self)@ == old(self)@,
    {
        if row >= self.height || column >= self.width {
            return Err(GridError::IndexOutOfRange);
        }
        let idx: usize = self.get_index(row, column);
        proof {
            lemma_toggle_cell(blocks(self.cells), idx as int);
        }
        self.cells.toggle(idx);
        proof {
            assert(self@.cells =~= old(self)@.toggled(row as int, column as int).cells);
        }
        Ok(())
    }

    /// Gives the universe the size `width` by `height` with every cell dead,
    /// or leaves it as it is where the number of cells does not fit in 32
    /// bits.
    fn resize(&mut self, width: u32, height: u32) -> (done: Result<(), GridError>)
        requires
            old(self).wf(),
        ensures
            final(self).wf(),
            width * height <= u32::MAX ==> done is Ok && final(self)@ == Grid::dead(
                width as nat,
                height as nat,
            ),
            width * height > u32::MAX ==> done == Err::<(), GridError>(
                GridError::AllocationFailure,
            ) && final(self)@ == old(self)@,
    {
        match width.checked_mul(height) {
            Some(size) => {
                let cells = FixedBitSet::with_capacity(size as usize);
                proof {
                    lemma_zero_words(size as nat);
                }
                *self = Universe { width, height, cells };
                Ok(())
            },
            None => Err(GridError::AllocationFailure),
        }
    }

    /// Sets the number of columns and resets every cell to the dead state:
    /// nothing of the former content is kept. Fails, with
    /// `GridError::AllocationFailure` and without any change, where the
    /// number of cells would not fit in 32 bits.
    pub fn set_width(&mut self, width: u32) -> (done: Result<(), GridError>)
        requires
            old(self).wf(),
        ensures
            final(self).wf(),
            width * old(self)@.height <= u32::MAX ==> done is Ok && final(self)@ == Grid::dead(
                width as nat,
                old(self)@.height,
            ),
            width * old(self)@.height > u32::MAX ==> done == Err::<(), GridError>(
                GridError::AllocationFailure,
            ) && final(self)@ == old(self)@,
    {
        let height: u32 = self.height;
        self.resize(width, height)
    }

    /// Sets the number of rows and resets every cell to the dead state:
    /// nothing of the former content is kept. Fails, with
    /// `GridError::AllocationFailure` and without any change, where the
    /// number of cells would not fit in 32 bits.
    pub fn set_height(&mut self, height: u32) -> (done: Result<(), GridError>)
        requires
            old(self).wf(),
        ensures
            final(self).wf(),
            old(self)@.width * height <= u32::MAX ==> done is Ok && final(self)@ == Grid::dead(
                old(self)@.width,
                height as nat,
            ),
            old(self)@.width * height > u32::MAX ==> done == Err::<(), GridError>(
                GridError::AllocationFailure,
            ) && final(self)@ == old(self)@,
    {
        let width: u32 = self.width;
        self.resize(width, height)
    }

    /// Makes every listed cell alive and leaves the others as they are; a
    /// cell may be listed more than once. Fails, with
    /// `GridError::IndexOutOfRange` and without any change, where a pair
    /// names no cell of the universe.
    pub fn set_cells(&mut self, cells: &[(u32, u32)]) -> (done: Result<(), GridError>)
        requires
            old(self).wf(),
        ensures
            final(self).wf(),
            old(self)@.holds_all(cells@) ==> done is Ok && final(self)@ == old(self)@.with_alive(
                cells@,
            ),
            !old(self)@.holds_all(cells@) ==> done == Err::<(), GridError>(
                GridError::IndexOutOfRange,
            ) && final(self)@ == old(self)@,
    {
        for k in 0..cells.len()
            invariant
                self.wf(),
                *self == *old(self),
                forall|j: int|
                    0 <= j < k ==> self@.in_range(
                        (#[trigger] cells@[j]).0 as int,
                        cells@[j].1 as int,
                    ),
        {
            let cell = cells[k];
            if cell.0 >= self.height || cell.1 >= self.width {
                return Err(GridError::IndexOutOfRange);
            }
        }
        for k in 0..cells.len()
            invariant
                self.wf(),
                self.width == old(self).width,
                self.height == old(self).height,
                old(self)@.holds_all(cells@),
                forall|i: int|
                    0 <= i < self@.cells.len() ==> #[trigger] self@.cells[i] == (old(self)@.cells[i]
                        || old(self)@.lists(cells@, k as int, i)),
        {
            let cell = cells[k];
            let idx: usize = self.get_index(cell.0, cell.1);
            let ghost before = self@;
            proof {
                lemma_set_cell(blocks(self.cells), idx as int, true);
            }
            self.cells.set(idx, true);
            proof {
                let first = old(self)@;
                assert forall|i: int| 0 <= i < self@.cells.len() implies #[trigger] self@.cells[i]
                    == (first.cells[i] || first.lists(cells@, k + 1, i)) by {
                    assert(self@.cells[i] == (i == idx || before.cells[i]));
                    if i == idx {
                        assert(first.index(cells@[k as int].0 as int, cells@[k as int].1 as int)
                            == i);
                    } else if first.lists(cells@, k + 1, i) {
                        let at = choose|at: int|
                            0 <= at < k + 1 && at < cells@.len() && #[trigger] first.index(
                                cells@[at].0 as int,
                                cells@[at].1 as int,
                            ) == i;
                        assert(at < k);
                    }
                }
            }
        }
        proof {
            assert(self@.cells =~= old(self)@.with_alive(cells@).cells);
        }
        Ok(())
    }

    /// A copy of the cells as they are stored: 32 to a word, the first of
    /// them in the lowest bit, row after row.
    pub fn get_cells(&self) -> (words: Vec<u32>)
        requires
            self.wf(),
        ensures
            is_packed(words@, self@.cells),
    {
        let mut p = Vec::new();
        let stored = self.cells.as_slice();
        for i in 0..stored.len()
            invariant
                p@ == stored@.take(i as int),
        {
            p.push(stored[i]);
        }
        proof {
            assert(p@ =~= stored@);
        }
        p
    }
}

} // verus!

//! What holds of the model, and so of every universe: the rule, the
//! wraparound, two well-known patterns, and the packed form.

use vstd::prelude::*;
use crate::grid::{
    lemma_index_div_mod, lemma_index_in_bounds, lemma_live_neighbours_around,
    lemma_place_in_range, lemma_step_cell, lemma_wrap, Grid,
};
use crate::packing::{
    block_count, is_packed, lemma_packed_form_is_unique, lemma_unpack_packed, lemma_zero_words,
    unpack,
};

verus! {

/// The live cells of `g` are the two-by-two block whose upper left cell is
/// `(row, col)`; the block may reach over the edge.
pub open spec fn is_block(g: Grid, row: int, col: int) -> bool {
    forall|r: int, c: int|
        g.in_range(r, c) ==> (#[trigger] g.alive(r, c) <==> (r == row || r == g.below(row)) && (c
            == col || c == g.right(col)))
}

/// The live cells of `g` are `(row, col)` and the cells left and right of it.
pub open spec fn is_row_of_three(g: Grid, row: int, col: int) -> bool {
    forall|r: int, c: int|
        g.in_range(r, c) ==> (#[trigger] g.alive(r, c) <==> r == row && (c == g.left(col) || c
            == col || c == g.right(col)))
}

/// The live cells of `g` are `(row, col)` and the cells above and below it.
pub open spec fn is_column_of_three(g: Grid, row: int, col: int) -> bool {
    forall|r: int, c: int|
        g.in_range(r, c) ==> (#[trigger] g.alive(r, c) <==> c == col && (r == g.above(row) || r
            == row || r == g.below(row)))
}

/// Two grids of one size that agree in every cell are one grid.
pub proof fn lemma_grids_equal(a: Grid, b: Grid)
    requires
        a.wf(),
        b.wf(),
        a.width == b.width,
        a.height == b.height,
        forall|r: int, c: int| a.in_range(r, c) ==> #[trigger] a.alive(r, c) == b.alive(r, c),
    ensures
        a == b,
{
    assert forall|i: int| 0 <= i < a.cells.len() implies a.cells[i] == b.cells[i] by {
        lemma_place_in_range(a, i);
        let w = a.width as int;
        assert(a.alive(i / w, i % w) == b.alive(i / w, i % w));
    }
    assert(a.cells =~= b.cells);
}

/// The next generation depends on the cells alone: two grids of one size
/// that agree in every cell agree in every cell one generation on.
pub proof fn lemma_step_is_determined(a: Grid, b: Grid)
    requires
        a.wf(),
        b.wf(),
        a.width == b.width,
        a.height == b.height,
        forall|r: int, c: int| a.in_range(r, c) ==> #[trigger] a.alive(r, c) == b.alive(r, c),
    ensures
        a.step() == b.step(),
{
    lemma_grids_equal(a, b);
}

/// On a square grid the cell in the first row and column has the cell in
/// the last row and column for a neighbour, and the cell in the first row
/// and last column: where one of them is alive, it is counted.
pub proof fn lemma_corner_wraps(g: Grid, n: nat)
    requires
        g.wf(),
        g.width == n,
        g.height == n,
        n >= 1,
    ensures
        g.alive(n - 1, n - 1) ==> g.live_neighbours(0, 0) >= 1,
        g.alive(0, n - 1) ==> g.live_neighbours(0, 0) >= 1,
        n >= 3 ==> g.live_neighbours(0, 0) == g.one(n - 1, n - 1) + g.one(n - 1, 0) + g.one(
            n - 1,
            1,
        ) + g.one(0, n - 1) + g.one(0, 1) + g.one(1, n - 1) + g.one(1, 0) + g.one(1, 1),
{
    lemma_wrap(0, n as int);
    if n == 1 {
        assert(g.neighbour_term(0, 0, 1, 1) == g.one(0, 0));
        assert(g.neighbour_term(0, 0, 0, 1) == g.one(0, 0));
    }
}

/// A dead cell is alive one generation on if it has exactly three live
/// neighbours, and with any other number it stays dead.
pub proof fn lemma_birth(g: Grid, row: int, col: int)
    requires
        g.wf(),
        g.in_range(row, col),
        !g.alive(row, col),
    ensures
        g.step().alive(row, col) <==> g.live_neighbours(row, col) == 3,
{
    lemma_step_cell(g, row, col);
}

/// A live cell is alive one generation on if it has two or three live
/// neighbours, and with any other number it dies.
pub proof fn lemma_survival(g: Grid, row: int, col: int)
    requires
        g.wf(),
        g.in_range(row, col),
        g.alive(row, col),
    ensures
        g.step().alive(row, col) <==> g.live_neighbours(row, col) == 2 || g.live_neighbours(
            row,
            col,
        ) == 3,
{
    lemma_step_cell(g, row, col);
}

/// A two-by-two block on a grid of at least four rows and four columns
/// stays as it is.
pub proof fn lemma_block_is_still(g: Grid, row: int, col: int)
    requires
        g.wf(),
        g.width >= 4,
        g.height >= 4,
        g.in_range(row, col),
        is_block(g, row, col),
    ensures
        g.step() == g,
{
    assert forall|r: int, c: int| g.in_range(r, c) implies #[trigger] g.step().alive(r, c)
        == g.alive(r, c) by {
        lemma_step_cell(g, r, c);
        lemma_live_neighbours_around(g, r, c);
    }
    lemma_step_cell(g, row, col);
    lemma_grids_equal(g.step(), g);
}

/// A row of three live cells on a grid of at least four rows and four
/// columns is a column of three one generation on, about the same cell.
pub proof fn lemma_row_of_three_turns(g: Grid, row: int, col: int)
    requires
        g.wf(),
        g.width >= 4,
        g.height >= 4,
        g.in_range(row, col),
        is_row_of_three(g, row, col),
    ensures
        g.step().wf(),
        is_column_of_three(g.step(), row, col),
{
    assert forall|r: int, c: int| g.in_range(r, c) implies (#[trigger] g.step().alive(r, c) <==> c
        == col && (r == g.above(row) || r == row || r == g.below(row))) by {
        lemma_step_cell(g, r, c);
        lemma_live_neighbours_around(g, r, c);
    }
    lemma_step_cell(g, row, col);
}

/// A column of three live cells on a grid of at least four rows and four
/// columns is a row of three one generation on, about the same cell.
pub proof fn lemma_column_of_three_turns(g: Grid, row: int, col: int)
    requires
        g.wf(),
        g.width >= 4,
        g.height >= 4,
        g.in_range(row, col),
        is_column_of_three(g, row, col),
    ensures
        g.step().wf(),
        is_row_of_three(g.step(), row, col),
{
    assert forall|r: int, c: int| g.in_range(r, c) implies (#[trigger] g.step().alive(r, c) <==> r
        == row && (c == g.left(col) || c == col || c == g.right(col))) by {
        lemma_step_cell(g, r, c);
        lemma_live_neighbours_around(g, r, c);
    }
    lemma_step_cell(g, row, col);
}

/// A row of three live cells on a grid of at least four rows and four
/// columns is back after two generations.
pub proof fn lemma_blinker_returns(g: Grid, row: int, col: int)
    requires
        g.wf(),
        g.width >= 4,
        g.height >= 4,
        g.in_range(row, col),
        is_row_of_three(g, row, col),
    ensures
        is_column_of_three(g.step(), row, col),
        g.step().step() == g,
{
    lemma_row_of_three_turns(g, row, col);
    lemma_column_of_three_turns(g.step(), row, col);
    lemma_grids_equal(g.step().step(), g);
}

/// Inverting a cell twice gives the grid back.
pub proof fn lemma_toggle_twice(g: Grid, row: int, col: int)
    requires
        g.wf(),
        g.in_range(row, col),
    ensures
        g.toggled(row, col).toggled(row, col) == g,
{
    lemma_index_in_bounds(g, row, col);
    assert(g.toggled(row, col).toggled(row, col).cells =~= g.cells);
}

/// The packed form of a grid of dead cells is zero in every word, and has
/// just the words that the grid's size asks for.
pub proof fn lemma_dead_grid_packs_to_zeros(width: nat, height: nat, words: Seq<u32>)
    requires
        is_packed(words, Grid::dead(width, height).cells),
    ensures
        words == Seq::new(block_count(width * height), |j: int| 0u32),
{
    lemma_zero_words(width * height);
    lemma_packed_form_is_unique(
        words,
        Seq::new(block_count(width * height), |j: int| 0u32),
        Grid::dead(width, height).cells,
    );
}

/// Unpacking the packed form of a grid that was dead before the cells of
/// `coords` were made alive gives a live cell where `coords` names the cell,
/// and a dead cell everywhere else.
pub proof fn lemma_round_trip(width: nat, height: nat, coords: Seq<(u32, u32)>, words: Seq<u32>)
    requires
        Grid::dead(width, height).holds_all(coords),
        is_packed(words, Grid::dead(width, height).with_alive(coords).cells),
    ensures
        unpack(words, width * height).len() == width * height,
        forall|r: int, c: int|
            #![trigger Grid::dead(width, height).index(r, c)]
            Grid::dead(width, height).in_range(r, c) ==> (unpack(
                words,
                width * height,
            )[Grid::dead(width, height).index(r, c)] <==> exists|k: int|
                0 <= k < coords.len() && (#[trigger] coords[k]).0 == r && coords[k].1 == c),
{
    let g = Grid::dead(width, height);
    let after = g.with_alive(coords);
    lemma_unpack_packed(words, after.cells);
    assert forall|r: int, c: int|
        #![trigger g.index(r, c)]
        g.in_range(r, c) implies (after.cells[g.index(r, c)] <==> exists|k: int|
        0 <= k < coords.len() && (#[trigger] coords[k]).0 == r && coords[k].1 == c) by {
        let i = g.index(r, c);
        lemma_index_in_bounds(g, r, c);
        lemma_index_div_mod(g, r, c);
        assert(after.cells[i] == g.lists(coords, coords.len() as int, i));
        if g.lists(coords, coords.len() as int, i) {
            let k = choose|k: int|
                0 <= k < coords.len() && #[trigger] g.index(
                    coords[k].0 as int,
                    coords[k].1 as int,
                ) == i;
            assert(g.in_range(coords[k].0 as int, coords[k].1 as int));
            lemma_index_div_mod(g, coords[k].0 as int, coords[k].1 as int);
            assert(coords[k].0 == r && coords[k].1 == c);
        }
        if exists|k: int|
            0 <= k < coords.len() && (#[trigger] coords[k]).0 == r && coords[k].1 == c {
            let k = choose|k: int|
                0 <= k < coords.len() && (#[trigger] coords[k]).0 == r && coords[k].1 == c;
            assert(g.index(coords[k].0 as int, coords[k].1 as int) == i);
        }
    }
}

} // verus!

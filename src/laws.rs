//! Laws of the board that relate several operations or hold of every input.
use crate::cell::Cell;
use crate::model::{
    in_bounds, index_of, lemma_index_in_range, lemma_index_split, live_neighbors, neighbor_term,
    next_generation, shifted, toggled,
};
use crate::universe::Universe;
use vstd::arithmetic::div_mod::{
    lemma_fundamental_div_mod, lemma_mod_bound, lemma_mod_multiples_vanish,
};
use vstd::prelude::*;

verus! {

/// The row-major index is a bijection between the positions of a board and
/// `0 .. width * height`: each position lands in range and is recovered from
/// its index, and each index in range is the index of exactly that position.
pub proof fn law_index_bijection(width: int, height: int)
    requires
        width >= 0,
        height >= 0,
    ensures
        forall|row: int, col: int|
            #![trigger index_of(width, row, col)]
            in_bounds(width, height, row, col) ==> 0 <= index_of(width, row, col) < width * height
                && index_of(width, row, col) / width == row && index_of(width, row, col) % width
                == col,
        forall|i: int|
            #![trigger i / width]
            0 <= i < width * height ==> in_bounds(width, height, i / width, i % width) && index_of(
                width,
                i / width,
                i % width,
            ) == i,
{
    assert forall|row: int, col: int| #![trigger index_of(width, row, col)]
        in_bounds(width, height, row, col) implies 0 <= index_of(width, row, col) < width * height
        && index_of(width, row, col) / width == row && index_of(width, row, col) % width == col by {
        lemma_index_in_range(width, height, row, col);
    }
    assert forall|i: int| #![trigger i / width] 0 <= i < width * height implies in_bounds(
        width,
        height,
        i / width,
        i % width,
    ) && index_of(width, i / width, i % width) == i by {
        lemma_index_split(width, height, i);
    }
}

/// A cell has between none and eight live neighbours.
pub proof fn law_neighbor_count_range(
    cells: Seq<Cell>,
    width: int,
    height: int,
    row: int,
    col: int,
)
    ensures
        0 <= live_neighbors(cells, width, height, row, col) <= 8,
{
}

proof fn lemma_mod_inner(a: int, b: int, m: int)
    requires
        m > 0,
    ensures
        (a % m + b) % m == (a + b) % m,
{
    lemma_fundamental_div_mod(a, m);
    lemma_mod_multiples_vanish(a / m, a % m + b, m);
}

proof fn lemma_term_shift(
    cells: Seq<Cell>,
    width: int,
    height: int,
    row: int,
    col: int,
    dr: int,
    dc: int,
    o_row: int,
    o_col: int,
)
    requires
        cells.len() == width * height,
        in_bounds(width, height, row, col),
    ensures
        neighbor_term(
            shifted(cells, width, height, dr, dc),
            width,
            height,
            (row + dr) % height,
            (col + dc) % width,
            o_row,
            o_col,
        ) == neighbor_term(cells, width, height, row, col, o_row, o_col),
{
    if !(o_row == 0 && o_col == 0) {
        let r = ((row + dr) % height + o_row) % height;
        let c = ((col + dc) % width + o_col) % width;
        lemma_mod_bound((row + dr) % height + o_row, height);
        lemma_mod_bound((col + dc) % width + o_col, width);
        lemma_index_in_range(width, height, r, c);
        lemma_mod_inner(row + dr, o_row, height);
        lemma_mod_inner(col + dc, o_col, width);
        lemma_mod_inner(row + dr + o_row, -dr, height);
        lemma_mod_inner(col + dc + o_col, -dc, width);
        assert(r - dr == r + (-dr));
        assert(c - dc == c + (-dc));
        assert(row + dr + o_row + (-dr) == row + o_row);
        assert(col + dc + o_col + (-dc) == col + o_col);
    }
}

/// The neighbour count is the same for a pattern and for the same pattern
/// moved round the torus, at the moved position.
pub proof fn law_neighbor_count_translation(
    cells: Seq<Cell>,
    width: int,
    height: int,
    row: int,
    col: int,
    dr: int,
    dc: int,
)
    requires
        cells.len() == width * height,
        in_bounds(width, height, row, col),
    ensures
        live_neighbors(
            shifted(cells, width, height, dr, dc),
            width,
            height,
            (row + dr) % height,
            (col + dc) % width,
        ) == live_neighbors(cells, width, height, row, col),
{
    let o_rows = seq![height - 1, 0int, 1int];
    let o_cols = seq![width - 1, 0int, 1int];
    assert forall|a: int, b: int| 0 <= a < 3 && 0 <= b < 3 implies neighbor_term(
        shifted(cells, width, height, dr, dc),
        width,
        height,
        (row + dr) % height,
        (col + dc) % width,
        #[trigger] o_rows[a],
        #[trigger] o_cols[b],
    ) == neighbor_term(cells, width, height, row, col, o_rows[a], o_cols[b]) by {
        lemma_term_shift(cells, width, height, row, col, dr, dc, o_rows[a], o_cols[b]);
    }
    assert(o_rows[0] == height - 1 && o_rows[1] == 0 && o_rows[2] == 1);
    assert(o_cols[0] == width - 1 && o_cols[1] == 0 && o_cols[2] == 1);
}

/// Advancing a generation depends on the board's state alone: two boards of
/// the same size and cells advance to the same cells.
pub proof fn law_tick_deterministic(a: Universe, b: Universe, a_next: Universe, b_next: Universe)
    requires
        a.spec_width() == b.spec_width(),
        a.spec_height() == b.spec_height(),
        a@ == b@,
        a_next@ == next_generation(a@, a.spec_width() as int, a.spec_height() as int),
        b_next@ == next_generation(b@, b.spec_width() as int, b.spec_height() as int),
    ensures
        a_next@ == b_next@,
{
}

/// The Life rule cell by cell: a dead cell with exactly three live neighbours
/// comes alive; a live cell with two or three stays alive; a live cell with
/// fewer than two or more than three dies; any other cell keeps its state.
pub proof fn law_transition(cells: Seq<Cell>, width: int, height: int, row: int, col: int)
    requires
        cells.len() == width * height,
        in_bounds(width, height, row, col),
    ensures
        ({
            let i = index_of(width, row, col);
            let n = live_neighbors(cells, width, height, row, col);
            let next = next_generation(cells, width, height)[i];
            &&& (cells[i] == Cell::Dead && n == 3 ==> next == Cell::Alive)
            &&& (cells[i] == Cell::Alive && (n == 2 || n == 3) ==> next == Cell::Alive)
            &&& (cells[i] == Cell::Alive && (n < 2 || n > 3) ==> next == Cell::Dead)
            &&& (cells[i] == Cell::Dead && n != 3 ==> next == Cell::Dead)
        }),
{
    lemma_index_in_range(width, height, row, col);
}

/// Toggling a cell changes that cell and no other, and toggling it again
/// restores the board.
pub proof fn law_toggle_involution(cells: Seq<Cell>, i: int)
    requires
        0 <= i < cells.len(),
    ensures
        toggled(cells, i)[i] != cells[i],
        forall|j: int| 0 <= j < cells.len() && j != i ==> #[trigger] toggled(cells, i)[j] == cells[j],
        toggled(toggled(cells, i), i) == cells,
{
    assert(toggled(toggled(cells, i), i) =~= cells);
}

} // verus!

//! The mathematical model of a board: a row-major sequence of cells, the
//! toroidal neighbourhood of a cell, the Life rule and the text picture.
use crate::cell::Cell;
use vstd::arithmetic::div_mod::{lemma_fundamental_div_mod, lemma_fundamental_div_mod_converse};
use vstd::prelude::*;

verus! {

/// Position of the cell at (`row`, `col`) in row-major order.
pub open spec fn index_of(width: int, row: int, col: int) -> int {
    row * width + col
}

/// Whether (`row`, `col`) lies on a board of `width` columns and `height` rows.
pub open spec fn in_bounds(width: int, height: int, row: int, col: int) -> bool {
    0 <= row < height && 0 <= col < width
}

/// The cell at (`row`, `col`).
pub open spec fn cell_at(cells: Seq<Cell>, width: int, row: int, col: int) -> Cell {
    cells[index_of(width, row, col)]
}

/// What the neighbour at offset (`dr`, `dc`) adds to the count of (`row`, `col`).
/// The offsets are taken modulo the board's size, and the pair (0, 0) stands
/// for the cell itself, which adds nothing.
pub open spec fn neighbor_term(
    cells: Seq<Cell>,
    width: int,
    height: int,
    row: int,
    col: int,
    dr: int,
    dc: int,
) -> int {
    if dr == 0 && dc == 0 {
        0
    } else {
        cell_at(cells, width, (row + dr) % height, (col + dc) % width).weight()
    }
}

/// The three neighbours at row offset `dr`, at column offsets `width - 1`, `0` and `1`.
pub open spec fn neighbor_row(
    cells: Seq<Cell>,
    width: int,
    height: int,
    row: int,
    col: int,
    dr: int,
) -> int {
    neighbor_term(cells, width, height, row, col, dr, width - 1) + neighbor_term(
        cells,
        width,
        height,
        row,
        col,
        dr,
        0,
    ) + neighbor_term(cells, width, height, row, col, dr, 1)
}

/// Number of live cells around (`row`, `col`): row offsets `height - 1`, `0`
/// and `1`, each with the three column offsets, the cell itself left out.
pub open spec fn live_neighbors(cells: Seq<Cell>, width: int, height: int, row: int, col: int) -> int {
    neighbor_row(cells, width, height, row, col, height - 1) + neighbor_row(
        cells,
        width,
        height,
        row,
        col,
        0,
    ) + neighbor_row(cells, width, height, row, col, 1)
}

/// The Life rule: the next state of a cell in state `cell` with `n` live neighbours.
pub open spec fn next_cell(cell: Cell, n: int) -> Cell {
    match cell {
        Cell::Alive => if n < 2 || n > 3 {
            Cell::Dead
        } else {
            Cell::Alive
        },
        Cell::Dead => if n == 3 {
            Cell::Alive
        } else {
            Cell::Dead
        },
    }
}

/// The generation after `cells`: every cell updated at once from the old state.
pub open spec fn next_generation(cells: Seq<Cell>, width: int, height: int) -> Seq<Cell> {
    Seq::new(
        (width * height) as nat,
        |i: int| next_cell(cells[i], live_neighbors(cells, width, height, i / width, i % width)),
    )
}

/// A board of `n` dead cells.
pub open spec fn dead_board(n: int) -> Seq<Cell> {
    Seq::new(n as nat, |i: int| Cell::Dead)
}

/// `cells` with the cell at index `i` flipped.
pub open spec fn toggled(cells: Seq<Cell>, i: int) -> Seq<Cell> {
    cells.update(i, cells[i].flipped())
}

/// `cells` moved `dr` rows down and `dc` columns right, wrapping round the
/// edges: what stood at (r, c) stands at ((r + dr) mod height, (c + dc) mod width).
pub open spec fn shifted(cells: Seq<Cell>, width: int, height: int, dr: int, dc: int) -> Seq<
    Cell,
> {
    Seq::new(
        cells.len(),
        |i: int| cell_at(cells, width, (i / width - dr) % height, (i % width - dc) % width),
    )
}

/// The glyph that pictures a cell.
pub open spec fn glyph(cell: Cell) -> char {
    if cell == Cell::Dead {
        '◻'
    } else {
        '◼'
    }
}

/// The first `cols` glyphs of row `row`.
pub open spec fn render_cols(cells: Seq<Cell>, width: int, row: int, cols: nat) -> Seq<char>
    decreases cols,
{
    if cols == 0 {
        Seq::empty()
    } else {
        render_cols(cells, width, row, (cols - 1) as nat).push(
            glyph(cell_at(cells, width, row, cols - 1)),
        )
    }
}

/// The first `rows` rows of the picture, each ended by a newline.
pub open spec fn render_rows(cells: Seq<Cell>, width: int, rows: nat) -> Seq<char>
    decreases rows,
{
    if rows == 0 {
        Seq::empty()
    } else {
        render_rows(cells, width, (rows - 1) as nat) + render_cols(
            cells,
            width,
            rows - 1,
            width as nat,
        ).push('\n')
    }
}

/// A cell on the board has its index on the board, and that index gives the
/// row back as quotient and the column as remainder.
pub proof fn lemma_index_in_range(width: int, height: int, row: int, col: int)
    requires
        in_bounds(width, height, row, col),
    ensures
        0 <= index_of(width, row, col) < width * height,
        index_of(width, row, col) / width == row,
        index_of(width, row, col) % width == col,
{
    assert(row * width + col < width * height) by (nonlinear_arith)
        requires
            0 <= row < height,
            0 <= col < width,
    ;
    assert(row * width >= 0) by (nonlinear_arith)
        requires
            0 <= row,
            0 <= width,
    ;
    lemma_fundamental_div_mod_converse(row * width + col, width, row, col);
}

/// Every index on the board is that of the cell at (quotient, remainder).
pub proof fn lemma_index_split(width: int, height: int, i: int)
    requires
        width >= 0,
        height >= 0,
        0 <= i < width * height,
    ensures
        in_bounds(width, height, i / width, i % width),
        index_of(width, i / width, i % width) == i,
{
    assert(width > 0) by (nonlinear_arith)
        requires
            0 <= i < width * height,
            width >= 0,
            height >= 0,
    ;
    lemma_fundamental_div_mod(i, width);
    assert(i / width < height) by (nonlinear_arith)
        requires
            i == width * (i / width) + (i % width),
            0 <= i % width,
            i < width * height,
            width > 0,
    ;
    assert(i / width >= 0) by (nonlinear_arith)
        requires
            i == width * (i / width) + (i % width),
            i % width < width,
            0 <= i,
            width > 0,
    ;
}

} // verus!

//! The board: its size and its cells, packed one bit per cell.
use crate::cell::Cell;
use crate::model::{
    dead_board, in_bounds, index_of, lemma_index_in_range, live_neighbors, neighbor_row,
    neighbor_term, next_cell, next_generation, render_cols, render_rows, toggled,
};
use vstd::prelude::*;
use vstd::string::StringExecFns;

verus! {

/// Number of bytes that hold `n` cells at one bit each.
pub open spec fn words_for(n: int) -> int {
    (n + 7) / 8
}

/// Bit `i % 8` of byte `i / 8`: the state of cell `i` in packed storage.
pub open spec fn bit_of(words: Seq<u8>, i: int) -> bool {
    (words[i / 8] >> ((i % 8) as u8)) & 1u8 == 1u8
}

/// The cell that a bit stands for.
pub open spec fn cell_of(bit: bool) -> Cell {
    if bit {
        Cell::Alive
    } else {
        Cell::Dead
    }
}

proof fn lemma_write_bit(w: u8, s: u8, c: u8)
    requires
        s < 8,
        c < 8,
    ensures
        ((w | (1u8 << s)) >> s) & 1u8 == 1u8,
        ((w & !(1u8 << s)) >> s) & 1u8 == 0u8,
        c != s ==> ((w | (1u8 << s)) >> c) & 1u8 == (w >> c) & 1u8,
        c != s ==> ((w & !(1u8 << s)) >> c) & 1u8 == (w >> c) & 1u8,
{
    assert(((w | (1u8 << s)) >> s) & 1u8 == 1u8) by (bit_vector)
        requires
            s < 8,
    ;
    assert(((w & !(1u8 << s)) >> s) & 1u8 == 0u8) by (bit_vector)
        requires
            s < 8,
    ;
    assert(c != s ==> ((w | (1u8 << s)) >> c) & 1u8 == (w >> c) & 1u8) by (bit_vector)
        requires
            s < 8,
            c < 8,
    ;
    assert(c != s ==> ((w & !(1u8 << s)) >> c) & 1u8 == (w >> c) & 1u8) by (bit_vector)
        requires
            s < 8,
            c < 8,
    ;
}

proof fn lemma_zero_bit(s: u8)
    requires
        s < 8,
    ensures
        (0u8 >> s) & 1u8 == 0u8,
{
    assert((0u8 >> s) & 1u8 == 0u8) by (bit_vector);
}

/// Reads the bit of cell `idx`.
fn read_bit(words: &Vec<u8>, idx: usize) -> (r: bool)
    requires
        idx / 8 < words@.len(),
    ensures
        r == bit_of(words@, idx as int),
{
    let w = words[idx / 8];
    let s = (idx % 8) as u8;
    (w >> s) & 1u8 == 1u8
}

/// Sets the bit of cell `idx` to `value`; every other bit stays as it was.
fn write_bit(words: &mut Vec<u8>, idx: usize, value: bool)
    requires
        idx / 8 < old(words)@.len(),
    ensures
        final(words)@.len() == old(words)@.len(),
        bit_of(final(words)@, idx as int) == value,
        forall|j: int|
            0 <= j < 8 * old(words)@.len() && j != idx ==> #[trigger] bit_of(final(words)@, j)
                == bit_of(old(words)@, j),
{
    let k = idx / 8;
    let s = (idx % 8) as u8;
    let w = words[k];
    let nw = if value {
        w | (1u8 << s)
    } else {
        w & !(1u8 << s)
    };
    words.set(k, nw);
    proof {
        lemma_write_bit(w, s, s);
        assert forall|j: int| 0 <= j < 8 * old(words)@.len() && j != idx implies #[trigger] bit_of(
            words@,
            j,
        ) == bit_of(old(words)@, j) by {
            if j / 8 == k as int {
                lemma_write_bit(w, s, (j % 8) as u8);
            }
        }
    }
}

/// Storage for `n` cells, all dead.
fn dead_words(n: usize) -> (r: Vec<u8>)
    requires
        n <= u32::MAX,
    ensures
        r@.len() == words_for(n as int),
        forall|i: int| 0 <= i < 8 * r@.len() ==> !#[trigger] bit_of(r@, i),
{
    let len = ((n as u64 + 7) / 8) as usize;
    let mut r: Vec<u8> = Vec::new();
    while r.len() < len
        invariant
            r@.len() <= len,
            forall|k: int| 0 <= k < r@.len() ==> r@[k] == 0u8,
        decreases len - r@.len(),
    {
        r.push(0u8);
    }
    proof {
        assert forall|i: int| 0 <= i < 8 * r@.len() implies !#[trigger] bit_of(r@, i) by {
            lemma_zero_bit((i % 8) as u8);
        }
    }
    r
}

/// The Life rule on one cell in state `cell` with `n` live neighbours.
fn next_state(cell: Cell, n: u8) -> (r: Cell)
    ensures
        r == next_cell(cell, n as int),
{
    match (cell, n) {
        (Cell::Alive, x) if x < 2 => Cell::Dead,
        (Cell::Alive, 2) | (Cell::Alive, 3) => Cell::Alive,
        (Cell::Alive, x) if x > 3 => Cell::Dead,
        (Cell::Dead, 3) => Cell::Alive,
        (otherwise, _) => otherwise,
    }
}

/// A toroidal Game of Life board of `width` columns and `height` rows.
///
/// Cell `i` (row-major) is bit `i % 8` of byte `i / 8` of the storage.
pub struct Universe {
    width: u32,
    height: u32,
    cells: Vec<u8>,
}

impl View for Universe {
    type V = Seq<Cell>;

    /// The cells in row-major order.
    closed spec fn view(&self) -> Seq<Cell> {
        Seq::new(
            (self.width * self.height) as nat,
            |i: int| cell_of(bit_of(self.cells@, i)),
        )
    }
}

impl Universe {
    /// Number of columns.
    pub closed spec fn spec_width(&self) -> u32 {
        self.width
    }

    /// Number of rows.
    pub closed spec fn spec_height(&self) -> u32 {
        self.height
    }

    /// The packed storage.
    pub closed spec fn words(&self) -> Seq<u8> {
        self.cells@
    }

    /// The number of cells fits in a `u32`, and the storage holds one bit per cell.
    pub closed spec fn wf(&self) -> bool {
        self.width * self.height <= u32::MAX && self.cells@.len() == words_for(
            self.width * self.height,
        )
    }

    /// Index into the view of the cell at (`row`, `col`).
    pub fn get_index(&self, row: u32, col: u32) -> (r: usize)
        requires
            self.wf(),
            in_bounds(self.spec_width() as int, self.spec_height() as int, row as int, col as int),
        ensures
            r == index_of(self.spec_width() as int, row as int, col as int),
            r < self@.len(),
    {
        proof {
            lemma_index_in_range(self.width as int, self.height as int, row as int, col as int);
        }
        (row * self.width + col) as usize
    }

    /// The cell at index `idx`.
    fn cell(&self, idx: usize) -> (r: Cell)
        requires
            self.wf(),
            idx < self@.len(),
        ensures
            r == self@[idx as int],
    {
        if read_bit(&self.cells, idx) {
            Cell::Alive
        } else {
            Cell::Dead
        }
    }

    /// What the neighbour at offset (`dr`, `dc`) adds to the count of (`row`, `col`).
    fn neighbor_term(&self, row: u32, col: u32, dr: u32, dc: u32) -> (r: u8)
        requires
            self.wf(),
            row < self.height,
            col < self.width,
            dr <= self.height,
            dc <= self.width,
        ensures
            r == neighbor_term(
                self@,
                self.width as int,
                self.height as int,
                row as int,
                col as int,
                dr as int,
                dc as int,
            ),
            r <= 1,
    {
        if dr == 0 && dc == 0 {
            return 0;
        }
        let neighbor_row = ((row as u64 + dr as u64) % self.height as u64) as u32;
        let neighbor_col = ((col as u64 + dc as u64) % self.width as u64) as u32;
        let idx = self.get_index(neighbor_row, neighbor_col);
        match self.cell(idx) {
            Cell::Alive => 1,
            Cell::Dead => 0,
        }
    }

    /// The three neighbours at row offset `dr`.
    fn neighbor_row(&self, row: u32, col: u32, dr: u32) -> (r: u8)
        requires
            self.wf(),
            row < self.height,
            col < self.width,
            dr <= self.height,
        ensures
            r == neighbor_row(
                self@,
                self.width as int,
                self.height as int,
                row as int,
                col as int,
                dr as int,
            ),
            r <= 3,
    {
        let left = self.width - 1;
        self.neighbor_term(row, col, dr, left) + self.neighbor_term(row, col, dr, 0)
            + self.neighbor_term(row, col, dr, 1)
    }

    /// Number of live cells among the eight toroidal neighbours of (`row`, `col`).
    pub fn live_neighbor_count(&self, row: u32, col: u32) -> (r: u8)
        requires
            self.wf(),
            in_bounds(self.spec_width() as int, self.spec_height() as int, row as int, col as int),
        ensures
            r == live_neighbors(
                self@,
                self.spec_width() as int,
                self.spec_height() as int,
                row as int,
                col as int,
            ),
            r <= 8,
    {
        let up = self.height - 1;
        self.neighbor_row(row, col, up) + self.neighbor_row(row, col, 0) + self.neighbor_row(
            row,
            col,
            1,
        )
    }

    /// The generation after this one replaces it: every cell is decided from
    /// the old state, into a second buffer that then takes the old one's place.
    pub fn tick(&mut self)
        requires
            old(self).wf(),
        ensures
            final(self).wf(),
            final(self).spec_width() == old(self).spec_width(),
            final(self).spec_height() == old(self).spec_height(),
            final(self)@ == next_generation(
                old(self)@,
                old(self).spec_width() as int,
                old(self).spec_height() as int,
            ),
    {
        let mut next = self.cells.clone();
        let ghost w = self.width as int;
        let ghost h = self.height as int;
        let ghost target = next_generation(self@, w, h);
        let mut row: u32 = 0;
        while row < self.height
            invariant
                self.wf(),
                w == self.width,
                h == self.height,
                target == next_generation(self@, w, h),
                next@.len() == self.cells@.len(),
                row <= self.height,
                forall|j: int|
                    0 <= j < row * w ==> #[trigger] bit_of(next@, j) == (target[j] == Cell::Alive),
            decreases self.height - row,
        {
            let mut col: u32 = 0;
            while col < self.width
                invariant
                    self.wf(),
                    w == self.width,
                    h == self.height,
                    target == next_generation(self@, w, h),
                    next@.len() == self.cells@.len(),
                    row < self.height,
                    col <= self.width,
                    forall|j: int|
                        0 <= j < row * w + col ==> #[trigger] bit_of(next@, j) == (target[j]
                            == Cell::Alive),
                decreases self.width - col,
            {
                let idx = self.get_index(row, col);
                let cell = self.cell(idx);
                let live_neighbor_count = self.live_neighbor_count(row, col);
                let next_cell = next_state(cell, live_neighbor_count);
                proof {
                    lemma_index_in_range(w, h, row as int, col as int);
                    assert(w * h <= 8 * next@.len());
                }
                write_bit(&mut next, idx, next_cell == Cell::Alive);
                col += 1;
            }
            proof {
                assert((row + 1) * w == row * w + w) by (nonlinear_arith);
            }
            row += 1;
        }
        self.cells = next;
        proof {
            assert(self@ =~= target);
        }
    }

    /// A 64 by 64 board whose cell `i` is alive when `i` is even or a multiple of 7.
    pub fn new() -> (r: Universe)
        ensures
            r.wf(),
            r.spec_width() == 64,
            r.spec_height() == 64,
            r@ == Seq::new(
                4096,
                |i: int|
                    if i % 2 == 0 || i % 7 == 0 {
                        Cell::Alive
                    } else {
                        Cell::Dead
                    },
            ),
    {
        let width: u32 = 64;
        let height: u32 = 64;
        let mut cells = dead_words(4096);
        let mut i: usize = 0;
        while i < 4096
            invariant
                cells@.len() == 512,
                i <= 4096,
                forall|j: int|
                    0 <= j < i ==> #[trigger] bit_of(cells@, j) == (j % 2 == 0 || j % 7 == 0),
            decreases 4096 - i,
        {
            write_bit(&mut cells, i, i % 2 == 0 || i % 7 == 0);
            i += 1;
        }
        let r = Universe { width, height, cells };
        proof {
            assert(r@ =~= Seq::new(
                4096,
                |i: int|
                    if i % 2 == 0 || i % 7 == 0 {
                        Cell::Alive
                    } else {
                        Cell::Dead
                    },
            ));
        }
        r
    }

    /// Number of columns.
    #[verifier::when_used_as_spec(spec_width)]
    pub fn width(&self) -> (r: u32)
        ensures
            r == self.spec_width(),
    {
        self.width
    }

    /// Number of rows.
    #[verifier::when_used_as_spec(spec_height)]
    pub fn height(&self) -> (r: u32)
        ensures
            r == self.spec_height(),
    {
        self.height
    }

    /// Sets the number of columns; every cell of the resized board is dead.
    pub fn set_width(&mut self, width: u32)
        requires
            old(self).wf(),
            width * old(self).spec_height() <= u32::MAX,
        ensures
            final(self).wf(),
            final(self).spec_width() == width,
            final(self).spec_height() == old(self).spec_height(),
            final(self)@ == dead_board(width * old(self).spec_height()),
    {
        self.width = width;
        self.cells = dead_words((width * self.height) as usize);
        proof {
            assert(self@ =~= dead_board(width * self.height));
        }
    }

    /// Sets the number of rows; every cell of the resized board is dead.
    pub fn set_height(&mut self, height: u32)
        requires
            old(self).wf(),
            old(self).spec_width() * height <= u32::MAX,
        ensures
            final(self).wf(),
            final(self).spec_width() == old(self).spec_width(),
            final(self).spec_height() == height,
            final(self)@ == dead_board(old(self).spec_width() * height),
    {
        self.height = height;
        self.cells = dead_words((self.width * height) as usize);
        proof {
            assert(self@ =~= dead_board(self.width * height));
        }
    }

    /// Flips the cell at (`row`, `col`); every other cell stays as it was.
    pub fn toggle_cell(&mut self, row: u32, col: u32)
        requires
            old(self).wf(),
            in_bounds(
                old(self).spec_width() as int,
                old(self).spec_height() as int,
                row as int,
                col as int,
            ),
        ensures
            final(self).wf(),
            final(self).spec_width() == old(self).spec_width(),
            final(self).spec_height() == old(self).spec_height(),
            final(self)@ == toggled(
                old(self)@,
                index_of(old(self).spec_width() as int, row as int, col as int),
            ),
    {
        let idx = self.get_index(row, col);
        let mut cell = self.cell(idx);
        cell.toggle();
        self.set_cell(idx, cell);
    }

    /// Puts `cell` at index `idx`; every other cell stays as it was.
    fn set_cell(&mut self, idx: usize, cell: Cell)
        requires
            old(self).wf(),
            idx < old(self)@.len(),
        ensures
            final(self).wf(),
            final(self).spec_width() == old(self).spec_width(),
            final(self).spec_height() == old(self).spec_height(),
            final(self)@ == old(self)@.update(idx as int, cell),
    {
        let ghost before = self@;
        write_bit(&mut self.cells, idx, cell == Cell::Alive);
        proof {
            assert(self@ =~= before.update(idx as int, cell));
        }
    }

    /// Makes alive each cell named by a (row, column) pair of `cells`; every
    /// other cell stays as it was.
    pub fn set_cells(&mut self, cells: &[(u32, u32)])
        requires
            old(self).wf(),
            forall|k: int|
                0 <= k < cells@.len() ==> in_bounds(
                    old(self).spec_width() as int,
                    old(self).spec_height() as int,
                    (#[trigger] cells@[k]).0 as int,
                    cells@[k].1 as int,
                ),
        ensures
            final(self).wf(),
            final(self).spec_width() == old(self).spec_width(),
            final(self).spec_height() == old(self).spec_height(),
            final(self)@ == Seq::new(
                old(self)@.len(),
                |i: int|
                    if exists|k: int|
                        0 <= k < cells@.len() && index_of(
                            old(self).spec_width() as int,
                            (#[trigger] cells@[k]).0 as int,
                            cells@[k].1 as int,
                        ) == i {
                        Cell::Alive
                    } else {
                        old(self)@[i]
                    },
            ),
    {
        let ghost before = self@;
        let ghost w = self.width as int;
        let mut n: usize = 0;
        while n < cells.len()
            invariant
                self.wf(),
                w == self.width,
                self.width == old(self).width,
                self.height == old(self).height,
                before == old(self)@,
                n <= cells@.len(),
                forall|k: int|
                    0 <= k < cells@.len() ==> in_bounds(
                        self.width as int,
                        self.height as int,
                        (#[trigger] cells@[k]).0 as int,
                        cells@[k].1 as int,
                    ),
                self@ == Seq::new(
                    before.len(),
                    |i: int|
                        if exists|k: int|
                            0 <= k < n && index_of(
                                w,
                                (#[trigger] cells@[k]).0 as int,
                                cells@[k].1 as int,
                            ) == i {
                            Cell::Alive
                        } else {
                            before[i]
                        },
                ),
            decreases cells@.len() - n,
        {
            let (row, col) = cells[n];
            let idx = self.get_index(row, col);
            let ghost mid = self@;
            self.set_cell(idx, Cell::Alive);
            proof {
                assert forall|i: int| 0 <= i < before.len() implies self@[i] == (if exists|k: int|
                    0 <= k < n + 1 && index_of(
                        w,
                        (#[trigger] cells@[k]).0 as int,
                        cells@[k].1 as int,
                    ) == i {
                    Cell::Alive
                } else {
                    before[i]
                }) by {
                    if i == idx {
                        assert(index_of(w, cells@[n as int].0 as int, cells@[n as int].1 as int)
                            == i);
                    }
                }
            }
            n += 1;
            proof {
                assert(self@ =~= Seq::new(
                    before.len(),
                    |i: int|
                        if exists|k: int|
                            0 <= k < n && index_of(
                                w,
                                (#[trigger] cells@[k]).0 as int,
                                cells@[k].1 as int,
                            ) == i {
                            Cell::Alive
                        } else {
                            before[i]
                        },
                ));
            }
        }
    }

    /// The cells in row-major order, one entry per cell.
    pub fn get_cells(&self) -> (r: Vec<Cell>)
        requires
            self.wf(),
        ensures
            r@ == self@,
    {
        let n = (self.width * self.height) as usize;
        let mut r: Vec<Cell> = Vec::new();
        let mut i: usize = 0;
        while i < n
            invariant
                self.wf(),
                n == self@.len(),
                i <= n,
                r@ == self@.subrange(0, i as int),
            decreases n - i,
        {
            r.push(self.cell(i));
            i += 1;
            proof {
                assert(r@ =~= self@.subrange(0, i as int));
            }
        }
        proof {
            assert(r@ =~= self@);
        }
        r
    }

    /// The packed storage, read-only: cell `i` is bit `i % 8` of byte `i / 8`.
    pub fn cells(&self) -> (r: &[u8])
        requires
            self.wf(),
        ensures
            r@ == self.words(),
            r@.len() == words_for(self@.len() as int),
            forall|i: int| 0 <= i < self@.len() ==> #[trigger] bit_of(r@, i) == (self@[i] == Cell::Alive),
    {
        self.cells.as_slice()
    }

    /// The board as text: one line per row, `◼` for a live cell and `◻` for a
    /// dead one, each line ended by a newline.
    pub fn render(&self) -> (r: String)
        requires
            self.wf(),
        ensures
            r@ == render_rows(self@, self.spec_width() as int, self.spec_height() as nat),
    {
        let ghost w = self.width as int;
        let mut r = String::new();
        let mut row: u32 = 0;
        while row < self.height
            invariant
                self.wf(),
                w == self.width,
                row <= self.height,
                r@ == render_rows(self@, w, row as nat),
            decreases self.height - row,
        {
            let ghost before = r@;
            let mut col: u32 = 0;
            while col < self.width
                invariant
                    self.wf(),
                    w == self.width,
                    row < self.height,
                    col <= self.width,
                    r@ == before + render_cols(self@, w, row as int, col as nat),
                decreases self.width - col,
            {
                let idx = self.get_index(row, col);
                let symbol = if self.cell(idx) == Cell::Dead {
                    "◻"
                } else {
                    "◼"
                };
                proof {
                    reveal_strlit("◻");
                    reveal_strlit("◼");
                }
                r.append(symbol);
                col += 1;
                proof {
                    assert(r@ =~= before + render_cols(self@, w, row as int, col as nat));
                }
            }
            proof {
                reveal_strlit("\n");
            }
            r.append("\n");
            row += 1;
            proof {
                assert(r@ =~= render_rows(self@, w, row as nat));
            }
        }
        r
    }
}

} // verus!

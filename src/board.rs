//! The grid world: cells and the board that holds them.

use vstd::prelude::*;

verus! {

/// An RGBA color.
#[derive(Clone, Copy, Debug, PartialEq, Eq, Structural)]
pub struct Color {
    pub r: u8,
    pub g: u8,
    pub b: u8,
    pub a: u8,
}

/// A handle on a texture that the rendering backend owns, with its size in
/// texels.
#[derive(Clone, Copy, Debug, PartialEq, Eq, Structural)]
pub struct Texture {
    pub id: u32,
    pub width: u32,
    pub height: u32,
}

/// What occupies one grid cell.
#[derive(Clone, Copy, Debug, PartialEq, Eq, Structural)]
pub enum Cell {
    Empty,
    SolidColor(Color),
    OpaqueTexture(Texture),
    TranslucentTexture(Texture),
}

/// A ray stops at a cell that is neither empty nor translucent.
pub open spec fn is_opaque(c: Cell) -> bool {
    !(c is Empty) && !(c is TranslucentTexture)
}

/// An access outside the board.
#[derive(Clone, Copy, Debug, PartialEq, Eq, Structural)]
pub enum BoardError {
    OutOfBounds,
}

/// A `rows` by `cols` grid of cells, stored row by row.
pub struct Board {
    rows: usize,
    cols: usize,
    cells: Vec<Cell>,
}

impl Board {
    pub closed spec fn rows_spec(&self) -> nat {
        self.rows as nat
    }

    pub closed spec fn cols_spec(&self) -> nat {
        self.cols as nat
    }

    /// The cells, row after row.
    pub closed spec fn cells_spec(&self) -> Seq<Cell> {
        self.cells@
    }

    pub open spec fn wf(&self) -> bool {
        &&& self.cells_spec().len() == self.rows_spec() * self.cols_spec()
        &&& self.rows_spec() * self.cols_spec() <= usize::MAX
    }

    pub open spec fn in_bounds(&self, x: int, y: int) -> bool {
        0 <= x < self.cols_spec() && 0 <= y < self.rows_spec()
    }

    /// The cell in column `x` of row `y`.
    pub open spec fn cell(&self, x: int, y: int) -> Cell {
        self.cells_spec()[y * self.cols_spec() + x]
    }

    /// A board of `rows * cols` empty cells.
    pub fn new(rows: usize, cols: usize) -> (b: Board)
        requires
            rows * cols <= usize::MAX,
        ensures
            b.wf(),
            b.rows_spec() == rows,
            b.cols_spec() == cols,
            forall|x: int, y: int| b.in_bounds(x, y) ==> #[trigger] b.cell(x, y) == Cell::Empty,
    {
        let n = rows * cols;
        let cells = vec![Cell::Empty; n];
        let b = Board { rows, cols, cells };
        assert forall|x: int, y: int| b.in_bounds(x, y) implies #[trigger] b.cell(x, y)
            == Cell::Empty by {
            lemma_index_in_grid(x, y, cols as int, rows as int);
        }
        b
    }

    pub fn rows(&self) -> (r: usize)
        ensures
            r == self.rows_spec(),
    {
        self.rows
    }

    pub fn cols(&self) -> (r: usize)
        ensures
            r == self.cols_spec(),
    {
        self.cols
    }

    /// The cell in column `x` of row `y`.
    pub fn at(&self, x: usize, y: usize) -> (c: Cell)
        requires
            self.wf(),
            self.in_bounds(x as int, y as int),
        ensures
            c == self.cell(x as int, y as int),
    {
        proof {
            lemma_index_in_grid(x as int, y as int, self.cols as int, self.rows as int);
        }
        self.cells[y * self.cols + x]
    }

    /// The cell in column `x` of row `y`, or `OutOfBounds` where there is
    /// none.
    pub fn get(&self, x: usize, y: usize) -> (r: Result<Cell, BoardError>)
        requires
            self.wf(),
        ensures
            self.in_bounds(x as int, y as int) ==> r == Ok::<Cell, BoardError>(
                self.cell(x as int, y as int),
            ),
            !self.in_bounds(x as int, y as int) ==> r == Err::<Cell, BoardError>(
                BoardError::OutOfBounds,
            ),
    {
        if x < self.cols && y < self.rows {
            Ok(self.at(x, y))
        } else {
            Err(BoardError::OutOfBounds)
        }
    }

    /// Replaces the cell in column `x` of row `y`, or leaves the board as
    /// it is and returns `OutOfBounds` where there is no such cell.
    pub fn try_set(&mut self, x: usize, y: usize, cell: Cell) -> (r: Result<(), BoardError>)
        requires
            old(self).wf(),
        ensures
            final(self).wf(),
            final(self).rows_spec() == old(self).rows_spec(),
            final(self).cols_spec() == old(self).cols_spec(),
            old(self).in_bounds(x as int, y as int) ==> r is Ok && final(self).cell(x as int, y as int)
                == cell,
            !old(self).in_bounds(x as int, y as int) ==> r == Err::<(), BoardError>(
                BoardError::OutOfBounds,
            ) && final(self).cells_spec() == old(self).cells_spec(),
            forall|i: int, j: int|
                final(self).in_bounds(i, j) && (i != x || j != y) ==> #[trigger] final(self).cell(
                    i,
                    j,
                ) == old(self).cell(i, j),
    {
        if x < self.cols && y < self.rows {
            self.set(x, y, cell);
            Ok(())
        } else {
            Err(BoardError::OutOfBounds)
        }
    }

    /// Replaces the cell in column `x` of row `y`; every other cell stays.
    pub fn set(&mut self, x: usize, y: usize, cell: Cell)
        requires
            old(self).wf(),
            old(self).in_bounds(x as int, y as int),
        ensures
            final(self).wf(),
            final(self).rows_spec() == old(self).rows_spec(),
            final(self).cols_spec() == old(self).cols_spec(),
            final(self).cell(x as int, y as int) == cell,
            forall|i: int, j: int|
                final(self).in_bounds(i, j) && (i != x || j != y) ==> #[trigger] final(self).cell(
                    i,
                    j,
                ) == old(self).cell(i, j),
    {
        proof {
            lemma_index_in_grid(x as int, y as int, self.cols as int, self.rows as int);
        }
        let i = y * self.cols + x;
        self.cells.set(i, cell);
        proof {
            assert forall|a: int, b: int|
                self.in_bounds(a, b) && (a != x || b != y) implies #[trigger] self.cell(a, b)
                == old(self).cell(a, b) by {
                lemma_index_in_grid(a, b, self.cols as int, self.rows as int);
                lemma_index_distinct(a, b, x as int, y as int, self.cols as int);
            }
        }
    }
}

proof fn lemma_index_in_grid(x: int, y: int, cols: int, rows: int)
    requires
        0 <= x < cols,
        0 <= y < rows,
    ensures
        0 <= y * cols + x < rows * cols,
{
    assert(y * cols + x < rows * cols) by (nonlinear_arith)
        requires
            0 <= x < cols,
            0 <= y < rows,
    ;
    assert(0 <= y * cols) by (nonlinear_arith)
        requires
            0 <= y,
            0 <= cols,
    ;
}

proof fn lemma_index_distinct(a: int, b: int, x: int, y: int, cols: int)
    requires
        0 <= a < cols,
        0 <= x < cols,
        a != x || b != y,
    ensures
        b * cols + a != y * cols + x,
{
    if b == y {
    } else {
        assert(b * cols + a != y * cols + x) by (nonlinear_arith)
            requires
                0 <= a < cols,
                0 <= x < cols,
                b != y,
        ;
    }
}

} // verus!

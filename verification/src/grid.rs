//! The board: an 8x8 grid of cells, each empty or one of five colors.

use vstd::prelude::*;
use vstd::pervasive::VecAdditionalExecFns;

verus! {

/// One board cell: either empty (mid-elimination) or a colored tile.
#[derive(Clone, Copy, PartialEq, Eq, Structural, Debug)]
pub enum Cell {
    Empty,
    Red,
    Green,
    Blue,
    Yellow,
    Purple,
}

/// True when `(r, c)` lies on the board.
pub open spec fn in_range(r: int, c: int) -> bool {
    0 <= r < 8 && 0 <= c < 8
}

/// Flat index of the cell in row `r`, column `c` (row-major order).
pub open spec fn flat(r: int, c: int) -> int {
    r * 8 + c
}

/// Well-formed board contents: one cell for each of the 64 positions.
pub open spec fn grid_wf(g: Seq<Cell>) -> bool {
    g.len() == 64
}

/// The cell in row `r`, column `c` of board contents `g`.
pub open spec fn cell_at(g: Seq<Cell>, r: int, c: int) -> Cell {
    g[flat(r, c)]
}

/// True when no cell of `g` is empty.
pub open spec fn no_empty(g: Seq<Cell>) -> bool {
    forall|r: int, c: int| in_range(r, c) ==> #[trigger] cell_at(g, r, c) != Cell::Empty
}

/// The board, stored row-major.  Owned by the engine; mutated only through
/// engine operations.
pub struct Grid {
    cells: Vec<Cell>,
}

impl View for Grid {
    type V = Seq<Cell>;

    closed spec fn view(&self) -> Seq<Cell> {
        self.cells@
    }
}

impl Grid {
    /// A board of 64 empty cells.
    pub fn new_empty() -> (g: Grid)
        ensures
            grid_wf(g@),
            forall|r: int, c: int| in_range(r, c) ==> #[trigger] cell_at(g@, r, c) == Cell::Empty,
    {
        let mut cells: Vec<Cell> = Vec::new();
        for i in 0..64
            invariant
                cells@.len() == i,
                forall|k: int| 0 <= k < i ==> cells@[k] == Cell::Empty,
        {
            cells.push(Cell::Empty);
        }
        Grid { cells }
    }

    /// A board made from an explicit row-major list of 64 cells.
    pub fn from_cells(cells: Vec<Cell>) -> (g: Grid)
        requires
            cells@.len() == 64,
        ensures
            g@ == cells@,
            grid_wf(g@),
    {
        Grid { cells }
    }

    /// The cell in row `r`, column `c`.
    pub fn get(&self, r: usize, c: usize) -> (v: Cell)
        requires
            grid_wf(self@),
            r < 8,
            c < 8,
        ensures
            v == cell_at(self@, r as int, c as int),
    {
        self.cells[r * 8 + c]
    }

    /// Replaces the cell in row `r`, column `c` by `v`.
    pub fn set(&mut self, r: usize, c: usize, v: Cell)
        requires
            grid_wf(old(self)@),
            r < 8,
            c < 8,
        ensures
            final(self)@ == old(self)@.update(flat(r as int, c as int), v),
            grid_wf(final(self)@),
    {
        self.cells.set(r * 8 + c, v);
    }

    /// A row-major copy of the 64 cells, for presentation layers.
    pub fn snapshot(&self) -> (v: Vec<Cell>)
        requires
            grid_wf(self@),
        ensures
            v@ == self@,
    {
        let mut out: Vec<Cell> = Vec::new();
        let mut i: usize = 0;
        while i < 64
            invariant
                grid_wf(self@),
                i <= 64,
                out@.len() == i,
                forall|k: int| 0 <= k < i ==> out@[k] == self@[k],
            decreases 64 - i,
        {
            out.push(self.cells[i]);
            i = i + 1;
        }
        proof {
            assert(out@ =~= self@);
        }
        out
    }
}

} // verus!

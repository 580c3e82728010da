//! The board engine: owns the grid and the score; validates swaps, runs
//! elimination passes until the board is stable, checks for legal moves and
//! reshuffles on deadlock.

use vstd::prelude::*;
use crate::grid::{Cell, Grid, cell_at, flat, grid_wf, in_range, no_empty};
use crate::matching::{
    find_matches, grid_match_free, match_free, matched, matched_count,
    lemma_match_free_iff_count_zero,
};
use crate::collapse::{
    collapse, collapsed_cell, col_seq, kept, lemma_kept_no_empty, pad_len,
};
use crate::refill::{fill_all, fill_empty, fill_fallback, ColorSource};
use crate::swap::{
    adjacent, has_move, has_move_canon, is_adjacent, lemma_has_move_canon,
    lemma_swap_involutive, right_swap_match, down_swap_match, swap_cells, swapped,
};

verus! {

/// What a swap attempt did.
#[derive(Clone, Copy, PartialEq, Eq, Structural, Debug)]
pub enum SwapOutcome {
    /// The pair was not adjacent; nothing changed.
    RejectedNotAdjacent,
    /// The pair was adjacent but the swap made no match, so it was undone.
    AcceptedNoMatch,
    /// The swap was kept: it produced at least one match.
    AcceptedMatched,
}

/// What a deadlock reshuffle achieved.
#[derive(Clone, Copy, PartialEq, Eq, Structural, Debug)]
pub enum ReshuffleOutcome {
    /// A regenerated board with a legal move is in place.
    Reshuffled,
    /// Every attempt ended without a legal move; the session is over.
    Ended,
}

/// Points for one elimination pass that cleared `n` cells: 100 for three,
/// 200 for four, 300 for five or more.  The count is the total of cells
/// cleared in the pass, not per discrete run.
pub open spec fn pass_points(n: nat) -> int {
    if n >= 5 {
        300
    } else if n == 4 {
        200
    } else {
        100
    }
}

/// Addition capped at the score counter's maximum.
pub open spec fn sat_add(a: int, b: int) -> int {
    if a + b > u32::MAX {
        u32::MAX as int
    } else {
        a + b
    }
}

/// Column `j` of `g` with every matched cell already cleared.
pub open spec fn cleared_col(g: Seq<Cell>, j: int) -> Seq<Cell> {
    Seq::new(8, |i: int| if matched(g, i, j) { Cell::Empty } else { cell_at(g, i, j) })
}

/// Bound on elimination passes of one settle call; reaching it is reported
/// instead of looping further.
pub const SETTLE_CAP: u32 = 1000;

/// Bound on random regenerations tried before the deterministic fallback
/// board is used.
pub const REGEN_CAP: u32 = 10000;

/// The engine owning one session's board and score.
pub struct BoardEngine {
    grid: Grid,
    score: u32,
    source: ColorSource,
}

impl BoardEngine {
    /// The board contents.
    pub closed spec fn grid_of(self) -> Seq<Cell> {
        self.grid@
    }

    /// The accumulated score.
    pub closed spec fn score_of(self) -> int {
        self.score as int
    }

    /// The color source.
    pub closed spec fn source_of(self) -> ColorSource {
        self.source
    }

    /// A well-formed engine: a full 8x8 board and a usable color source.
    pub open spec fn wf(self) -> bool {
        &&& grid_wf(self.grid_of())
        &&& no_empty(self.grid_of())
        &&& self.source_of().wf()
    }

    /// An engine over an explicitly given board, score and source.
    pub fn from_parts(grid: Grid, score: u32, source: ColorSource) -> (e: BoardEngine)
        requires
            grid_wf(grid@),
            no_empty(grid@),
            source.wf(),
        ensures
            e.wf(),
            e.grid_of() == grid@,
            e.score_of() == score,
            e.source_of() == source,
    {
        BoardEngine { grid, score, source }
    }

    /// A fresh engine: a match-free random board and a zero score.
    pub fn new(source: ColorSource) -> (e: BoardEngine)
        requires
            source.wf(),
        ensures
            e.wf(),
            e.score_of() == 0,
            match_free(e.grid_of()),
            e.source_of().is_random() == source.is_random(),
            e.source_of().pattern_of() == source.pattern_of(),
    {
        let mut e = BoardEngine { grid: Grid::new_empty(), score: 0, source };
        e.initialize();
        e
    }

    /// The accumulated score.
    pub fn current_score(&self) -> (s: u32)
        ensures
            s == self.score_of(),
    {
        self.score
    }

    /// The board, read-only.
    pub fn board(&self) -> (g: &Grid)
        ensures
            g@ == self.grid_of(),
    {
        &self.grid
    }

    /// Regenerates the whole board at random until it is match-free, up to
    /// `REGEN_CAP` times; after that a deterministic match-free board is
    /// put in place.  The score is untouched.
    pub fn initialize(&mut self)
        requires
            grid_wf(old(self).grid_of()),
            old(self).source_of().wf(),
        ensures
            final(self).wf(),
            match_free(final(self).grid_of()),
            final(self).score_of() == old(self).score_of(),
            final(self).source_of().is_random() == old(self).source_of().is_random(),
            final(self).source_of().pattern_of() == old(self).source_of().pattern_of(),
    {
        let mut tries: u32 = 0;
        while tries < REGEN_CAP
            invariant
                grid_wf(self.grid_of()),
                self.source_of().wf(),
                self.score_of() == old(self).score_of(),
                self.source_of().is_random() == old(self).source_of().is_random(),
                self.source_of().pattern_of() == old(self).source_of().pattern_of(),
            decreases REGEN_CAP - tries,
        {
            fill_all(&mut self.grid, &mut self.source);
            if grid_match_free(&self.grid) {
                return;
            }
            tries = tries + 1;
        }
        fill_fallback(&mut self.grid);
    }

    /// One elimination pass: detect, score, clear, collapse, refill.
    /// Without a match it does nothing and reports no progress.  With
    /// matches, the score grows by the pass points for the number of cleared
    /// cells (capped at the counter maximum), and every surviving tile of
    /// each column sinks onto the bottom in order, the refilled cells above
    /// them.
    #[verifier::rlimit(60)]
    pub fn settle_pass(&mut self) -> (progress: bool)
        requires
            old(self).wf(),
        ensures
            final(self).wf(),
            progress == (matched_count(old(self).grid_of()) > 0),
            progress ==> matched_count(old(self).grid_of()) >= 3,
            !progress ==> {
                &&& final(self).grid_of() == old(self).grid_of()
                &&& final(self).score_of() == old(self).score_of()
                &&& final(self).source_of() == old(self).source_of()
            },
            progress ==> final(self).score_of()
                == sat_add(old(self).score_of(), pass_points(matched_count(old(self).grid_of()))),
            final(self).score_of() >= old(self).score_of(),
            final(self).source_of().is_random() == old(self).source_of().is_random(),
            final(self).source_of().pattern_of() == old(self).source_of().pattern_of(),
            progress ==> forall|i: int, j: int|
                in_range(i, j) && i >= pad_len(cleared_col(old(self).grid_of(), j))
                    ==> #[trigger] cell_at(final(self).grid_of(), i, j)
                        == kept(cleared_col(old(self).grid_of(), j))[i - pad_len(cleared_col(old(self).grid_of(), j))],
    {
        let ghost g0 = self.grid@;
        proof {
            crate::matching::lemma_min_match_size(g0);
        }
        let m = find_matches(&self.grid);
        if m.len() == 0 {
            return false;
        }
        let pts: u32 = if m.len() >= 5 {
            300
        } else if m.len() == 4 {
            200
        } else {
            100
        };
        self.score = if self.score <= u32::MAX - pts {
            self.score + pts
        } else {
            u32::MAX
        };
        clear_cells(&mut self.grid, &m);
        let ghost g1 = self.grid@;
        proof {
            assert forall|j: int| 0 <= j < 8 implies col_seq(g1, j) =~= cleared_col(g0, j) by {
                assert forall|i: int| 0 <= i < 8 implies col_seq(g1, j)[i] == cleared_col(g0, j)[i] by {
                    assert(m@.contains((i as usize, j as usize)) == matched(g0, i, j));
                    assert(cell_at(g1, i, j) == (
                        if m@.contains((i as usize, j as usize)) { Cell::Empty } else { cell_at(g0, i, j) }
                    ));
                }
            }
        }
        let _moves = collapse(&mut self.grid);
        let ghost g2 = self.grid@;
        fill_empty(&mut self.grid, &mut self.source);
        proof {
            assert forall|i: int, j: int|
                in_range(i, j) && i >= pad_len(cleared_col(g0, j))
                implies #[trigger] cell_at(self.grid@, i, j)
                    == kept(cleared_col(g0, j))[i - pad_len(cleared_col(g0, j))] by {
                let ccol = cleared_col(g0, j);
                assert(col_seq(g1, j) == ccol);
                assert(cell_at(g2, i, j) == collapsed_cell(col_seq(g1, j), i));
                lemma_kept_no_empty(ccol);
                assert(cell_at(g2, i, j) == kept(ccol)[i - pad_len(ccol)]);
                assert(cell_at(g2, i, j) != Cell::Empty);
                assert(flat(i, j) == i * 8 + j);
                assert(cell_at(self.grid@, i, j) == cell_at(g2, i, j));
            }
        }
        true
    }

    /// Runs elimination passes until the board is stable, at most
    /// `SETTLE_CAP` of them.  Returns the number of passes, or `None` if the
    /// cap was reached with matches still present.  On a board that is
    /// already match-free it does nothing and returns zero passes.
    pub fn settle(&mut self) -> (r: Option<u32>)
        requires
            old(self).wf(),
        ensures
            final(self).wf(),
            final(self).score_of() >= old(self).score_of(),
            final(self).source_of().is_random() == old(self).source_of().is_random(),
            final(self).source_of().pattern_of() == old(self).source_of().pattern_of(),
            r matches Some(p) ==> match_free(final(self).grid_of()) && p <= SETTLE_CAP,
            !match_free(old(self).grid_of()) ==>
                final(self).score_of() >= sat_add(old(self).score_of(), 100),
            (r == Some(0u32)) <==> match_free(old(self).grid_of()),
            match_free(old(self).grid_of()) ==> {
                &&& final(self).grid_of() == old(self).grid_of()
                &&& final(self).score_of() == old(self).score_of()
                &&& final(self).source_of() == old(self).source_of()
            },
    {
        proof {
            lemma_match_free_iff_count_zero(old(self).grid_of());
        }
        let mut passes: u32 = 0;
        let mut done = false;
        while !done && passes < SETTLE_CAP
            invariant
                self.wf(),
                passes <= SETTLE_CAP,
                self.score_of() >= old(self).score_of(),
                self.source_of().is_random() == old(self).source_of().is_random(),
                self.source_of().pattern_of() == old(self).source_of().pattern_of(),
                done ==> match_free(self.grid_of()),
                match_free(old(self).grid_of()) ==> {
                    &&& passes == 0
                    &&& self.grid_of() == old(self).grid_of()
                    &&& self.score_of() == old(self).score_of()
                    &&& self.source_of() == old(self).source_of()
                },
                (done && passes == 0) ==> match_free(old(self).grid_of()),
                passes > 0 ==> self.score_of() >= sat_add(old(self).score_of(), 100),
                (!done && passes == 0) ==> {
                    &&& self.grid_of() == old(self).grid_of()
                    &&& self.score_of() == old(self).score_of()
                    &&& self.source_of() == old(self).source_of()
                },
            decreases SETTLE_CAP - passes, (if done { 0int } else { 1int }),
        {
            let ghost pre = self.grid_of();
            let progress = self.settle_pass();
            proof {
                lemma_match_free_iff_count_zero(pre);
            }
            if progress {
                passes = passes + 1;
            } else {
                done = true;
            }
        }
        if done {
            Some(passes)
        } else {
            None
        }
    }

    /// Validates and performs one swap.  A non-adjacent pair is rejected
    /// untouched; an adjacent swap that creates no match is undone
    /// bit-for-bit; an adjacent swap that creates a match is kept, and the
    /// matched cells of the swapped board are returned for display.  The
    /// caller starts the elimination cycle with `settle`.
    pub fn attempt_swap(&mut self, a: (usize, usize), b: (usize, usize))
        -> (res: (SwapOutcome, Vec<(usize, usize)>))
        requires
            old(self).wf(),
            a.0 < 8,
            a.1 < 8,
            b.0 < 8,
            b.1 < 8,
        ensures
            final(self).wf(),
            final(self).score_of() == old(self).score_of(),
            final(self).source_of() == old(self).source_of(),
            (res.0 == SwapOutcome::RejectedNotAdjacent)
                <==> !adjacent(a.0 as int, a.1 as int, b.0 as int, b.1 as int),
            res.0 != SwapOutcome::AcceptedMatched ==> {
                &&& final(self).grid_of() == old(self).grid_of()
                &&& res.1@.len() == 0
            },
            adjacent(a.0 as int, a.1 as int, b.0 as int, b.1 as int) ==> {
                let after = swapped(old(self).grid_of(), a.0 as int, a.1 as int, b.0 as int, b.1 as int);
                &&& (res.0 == SwapOutcome::AcceptedMatched <==> !match_free(after))
                &&& (res.0 == SwapOutcome::AcceptedMatched ==> {
                    &&& final(self).grid_of() == after
                    &&& forall|r: usize, c: usize| r < 8 && c < 8 ==>
                        (#[trigger] res.1@.contains((r, c)) == matched(after, r as int, c as int))
                    &&& res.1@.no_duplicates()
                })
            },
    {
        let ghost g0 = self.grid@;
        if !is_adjacent(a, b) {
            return (SwapOutcome::RejectedNotAdjacent, Vec::new());
        }
        swap_cells(&mut self.grid, a, b);
        proof {
            crate::swap::lemma_swapped_no_empty(
                g0, a.0 as int, a.1 as int, b.0 as int, b.1 as int);
        }
        let m = find_matches(&self.grid);
        proof {
            lemma_match_free_iff_count_zero(self.grid@);
        }
        if m.len() == 0 {
            swap_cells(&mut self.grid, a, b);
            proof {
                lemma_swap_involutive(g0, a.0 as int, a.1 as int, b.0 as int, b.1 as int);
            }
            (SwapOutcome::AcceptedNoMatch, Vec::new())
        } else {
            (SwapOutcome::AcceptedMatched, m)
        }
    }

    /// Whether some single adjacent swap would produce a match, checked
    /// exhaustively on scratch copies of the board.
    #[verifier::loop_isolation(false)]
    #[verifier::rlimit(60)]
    pub fn has_legal_move(&self) -> (b: bool)
        requires
            self.wf(),
        ensures
            b == has_move(self.grid_of()),
    {
        let ghost g = self.grid@;
        for i in 0..8usize
            invariant
                forall|i2: int, j2: int|
                    0 <= i2 < i && 0 <= j2 < 8 && j2 < 7 ==> !(#[trigger] right_swap_match(g, i2, j2)),
                forall|i2: int, j2: int|
                    0 <= i2 < i && 0 <= j2 < 8 && i2 < 7 ==> !(#[trigger] down_swap_match(g, i2, j2)),
        {
            for j in 0..8usize
                invariant
                    forall|i2: int, j2: int|
                        0 <= i2 < i && 0 <= j2 < 8 && j2 < 7 ==> !(#[trigger] right_swap_match(g, i2, j2)),
                    forall|i2: int, j2: int|
                        0 <= i2 < i && 0 <= j2 < 8 && i2 < 7 ==> !(#[trigger] down_swap_match(g, i2, j2)),
                    forall|j2: int|
                        0 <= j2 < j && j2 < 7 ==> !(#[trigger] right_swap_match(g, i as int, j2)),
                    forall|j2: int|
                        0 <= j2 < j && i < 7 ==> !(#[trigger] down_swap_match(g, i as int, j2)),
            {
                if j < 7 {
                    let mut t = Grid::from_cells(self.grid.snapshot());
                    swap_cells(&mut t, (i, j), (i, j + 1));
                    if !crate::matching::grid_match_free(&t) {
                        proof {
                            assert(right_swap_match(g, i as int, j as int));
                            assert(adjacent(i as int, j as int, i as int, j as int + 1));
                            assert(has_move(g));
                        }
                        return true;
                    }
                }
                if i < 7 {
                    let mut t = Grid::from_cells(self.grid.snapshot());
                    swap_cells(&mut t, (i, j), (i + 1, j));
                    if !crate::matching::grid_match_free(&t) {
                        proof {
                            assert(down_swap_match(g, i as int, j as int));
                            assert(adjacent(i as int, j as int, i as int + 1, j as int));
                            assert(has_move(g));
                        }
                        return true;
                    }
                }
            }
        }
        proof {
            lemma_has_move_canon(g);
            if has_move_canon(g) {
                let (i2, j2) = choose|i2: int, j2: int|
                    #![trigger right_swap_match(g, i2, j2)]
                    #![trigger down_swap_match(g, i2, j2)]
                    in_range(i2, j2) && (
                        (j2 < 7 && right_swap_match(g, i2, j2))
                        || (i2 < 7 && down_swap_match(g, i2, j2))
                    );
                assert(false);
            }
        }
        false
    }

    /// Resets the score to zero and regenerates a match-free board, as at
    /// session start.
    pub fn restart(&mut self)
        requires
            grid_wf(old(self).grid_of()),
            old(self).source_of().wf(),
        ensures
            final(self).wf(),
            match_free(final(self).grid_of()),
            final(self).score_of() == 0,
            final(self).source_of().is_random() == old(self).source_of().is_random(),
            final(self).source_of().pattern_of() == old(self).source_of().pattern_of(),
    {
        self.score = 0;
        self.initialize();
    }

    /// On a deadlocked board: regenerates the whole board (match-free, as at
    /// start) up to `max_attempts` times, stopping at the first board with a
    /// legal move.  If none of the attempts produces one, the last board
    /// stays and the session ends.  The score never changes here.
    pub fn reshuffle_or_end(&mut self, max_attempts: u32) -> (o: ReshuffleOutcome)
        requires
            old(self).wf(),
            match_free(old(self).grid_of()),
            !has_move(old(self).grid_of()),
        ensures
            final(self).wf(),
            final(self).score_of() == old(self).score_of(),
            final(self).source_of().is_random() == old(self).source_of().is_random(),
            final(self).source_of().pattern_of() == old(self).source_of().pattern_of(),
            match_free(final(self).grid_of()),
            o == ReshuffleOutcome::Reshuffled ==> has_move(final(self).grid_of()),
            o == ReshuffleOutcome::Ended ==> !has_move(final(self).grid_of()),
    {
        let mut att: u32 = 0;
        while att < max_attempts
            invariant
                self.wf(),
                match_free(self.grid_of()),
                !has_move(self.grid_of()),
                self.score_of() == old(self).score_of(),
                self.source_of().is_random() == old(self).source_of().is_random(),
                self.source_of().pattern_of() == old(self).source_of().pattern_of(),
            decreases max_attempts - att,
        {
            self.initialize();
            if self.has_legal_move() {
                return ReshuffleOutcome::Reshuffled;
            }
            att = att + 1;
        }
        ReshuffleOutcome::Ended
    }
}

/// Clears every listed cell to empty.
#[verifier::loop_isolation(false)]
fn clear_cells(g: &mut Grid, cells: &Vec<(usize, usize)>)
    requires
        grid_wf(old(g)@),
        forall|k: int| 0 <= k < cells@.len() ==> (#[trigger] cells@[k]).0 < 8 && cells@[k].1 < 8,
    ensures
        grid_wf(final(g)@),
        forall|r: int, c: int| #![trigger flat(r, c)]
            in_range(r, c) ==> cell_at(final(g)@, r, c) == (
                if cells@.contains((r as usize, c as usize)) {
                    Cell::Empty
                } else {
                    cell_at(old(g)@, r, c)
                }),
{
    broadcast use vstd::seq_lib::lemma_seq_contains_after_push;

    let n = cells.len();
    let mut k: usize = 0;
    while k < n
        invariant
            n == cells@.len(),
            k <= n,
            grid_wf(g@),
            forall|r: int, c: int| #![trigger flat(r, c)]
                in_range(r, c) ==> cell_at(g@, r, c) == (
                    if cells@.take(k as int).contains((r as usize, c as usize)) {
                        Cell::Empty
                    } else {
                        cell_at(old(g)@, r, c)
                    }),
        decreases n - k,
    {
        let (r, c) = cells[k];
        proof {
            assert(cells@.take(k + 1int) =~= cells@.take(k as int).push(cells@[k as int]));
        }
        g.set(r, c, Cell::Empty);
        proof {
            assert forall|rr: int, cc: int| #![trigger flat(rr, cc)]
                in_range(rr, cc) && !(rr == r as int && cc == c as int)
                implies flat(rr, cc) != flat(r as int, c as int) by {
            }
        }
        k = k + 1;
    }
    proof {
        assert(cells@.take(n as int) =~= cells@);
    }
}

} // verus!

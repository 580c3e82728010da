//! Swapping two cells: adjacency, the swapped board, and existence of a
//! legal move (an adjacent swap that creates a match).

use vstd::prelude::*;
use crate::grid::{Cell, Grid, cell_at, flat, grid_wf, in_range};
use crate::matching::match_free;

verus! {

/// Cells `(ar, ac)` and `(br, bc)` touch: their Manhattan distance is
/// exactly 1.  Same-cell and diagonal pairs are not adjacent.
pub open spec fn adjacent(ar: int, ac: int, br: int, bc: int) -> bool {
    ||| (ar == br && (ac == bc + 1 || bc == ac + 1))
    ||| (ac == bc && (ar == br + 1 || br == ar + 1))
}

/// Board contents `g` with the cells `(ar, ac)` and `(br, bc)` exchanged.
pub open spec fn swapped(g: Seq<Cell>, ar: int, ac: int, br: int, bc: int) -> Seq<Cell> {
    g.update(flat(ar, ac), g[flat(br, bc)]).update(flat(br, bc), g[flat(ar, ac)])
}

/// Swapping the same pair twice restores the board exactly.
pub proof fn lemma_swap_involutive(g: Seq<Cell>, ar: int, ac: int, br: int, bc: int)
    requires
        grid_wf(g),
        in_range(ar, ac),
        in_range(br, bc),
    ensures
        swapped(swapped(g, ar, ac, br, bc), ar, ac, br, bc) == g,
{
    assert(swapped(swapped(g, ar, ac, br, bc), ar, ac, br, bc) =~= g);
}

/// The swapped board does not depend on the order of the pair.
pub proof fn lemma_swapped_comm(g: Seq<Cell>, ar: int, ac: int, br: int, bc: int)
    requires
        grid_wf(g),
        in_range(ar, ac),
        in_range(br, bc),
    ensures
        swapped(g, ar, ac, br, bc) == swapped(g, br, bc, ar, ac),
{
    assert(swapped(g, ar, ac, br, bc) =~= swapped(g, br, bc, ar, ac));
}

/// Swapping two cells of a full board leaves it full.
pub proof fn lemma_swapped_no_empty(g: Seq<Cell>, ar: int, ac: int, br: int, bc: int)
    requires
        grid_wf(g),
        crate::grid::no_empty(g),
        in_range(ar, ac),
        in_range(br, bc),
    ensures
        crate::grid::no_empty(swapped(g, ar, ac, br, bc)),
{
    let s = swapped(g, ar, ac, br, bc);
    assert forall|r: int, c: int| in_range(r, c)
        implies #[trigger] cell_at(s, r, c) != Cell::Empty by {
        assert(cell_at(g, r, c) != Cell::Empty);
        assert(cell_at(g, ar, ac) != Cell::Empty);
        assert(cell_at(g, br, bc) != Cell::Empty);
        assert(s[flat(r, c)] == cell_at(s, r, c));
    }
}

/// Some single adjacent swap produces a match.
pub open spec fn has_move(g: Seq<Cell>) -> bool {
    exists|ar: int, ac: int, br: int, bc: int|
        in_range(ar, ac) && in_range(br, bc) && adjacent(ar, ac, br, bc)
        && !match_free(#[trigger] swapped(g, ar, ac, br, bc))
}

/// Swapping `(i, j)` with its right neighbor produces a match.
pub open spec fn right_swap_match(g: Seq<Cell>, i: int, j: int) -> bool {
    !match_free(swapped(g, i, j, i, j + 1))
}

/// Swapping `(i, j)` with its lower neighbor produces a match.
pub open spec fn down_swap_match(g: Seq<Cell>, i: int, j: int) -> bool {
    !match_free(swapped(g, i, j, i + 1, j))
}

/// Restriction of `has_move` to the pairs an exhaustive scan tries: each
/// cell with its right and with its lower neighbor.
pub open spec fn has_move_canon(g: Seq<Cell>) -> bool {
    exists|i: int, j: int|
        #![trigger right_swap_match(g, i, j)]
        #![trigger down_swap_match(g, i, j)]
        in_range(i, j) && (
            (j < 7 && right_swap_match(g, i, j))
            || (i < 7 && down_swap_match(g, i, j))
        )
}

/// Trying each cell against its right and lower neighbor covers every
/// adjacent pair.
pub proof fn lemma_has_move_canon(g: Seq<Cell>)
    requires
        grid_wf(g),
    ensures
        has_move(g) == has_move_canon(g),
{
    if has_move(g) {
        let (ar, ac, br, bc) = choose|ar: int, ac: int, br: int, bc: int|
            in_range(ar, ac) && in_range(br, bc) && adjacent(ar, ac, br, bc)
            && !match_free(#[trigger] swapped(g, ar, ac, br, bc));
        if ar == br && bc == ac + 1 {
            assert(right_swap_match(g, ar, ac));
            assert(has_move_canon(g));
        } else if ar == br && ac == bc + 1 {
            lemma_swapped_comm(g, ar, ac, br, bc);
            assert(right_swap_match(g, br, bc));
            assert(has_move_canon(g));
        } else if ac == bc && br == ar + 1 {
            assert(down_swap_match(g, ar, ac));
            assert(has_move_canon(g));
        } else {
            assert(ac == bc && ar == br + 1);
            lemma_swapped_comm(g, ar, ac, br, bc);
            assert(down_swap_match(g, br, bc));
            assert(has_move_canon(g));
        }
    }
    if has_move_canon(g) {
        let (i, j) = choose|i: int, j: int|
            #![trigger right_swap_match(g, i, j)]
            #![trigger down_swap_match(g, i, j)]
            in_range(i, j) && (
                (j < 7 && right_swap_match(g, i, j))
                || (i < 7 && down_swap_match(g, i, j))
            );
        if j < 7 && right_swap_match(g, i, j) {
            assert(adjacent(i, j, i, j + 1));
            assert(!match_free(swapped(g, i, j, i, j + 1)));
            assert(has_move(g));
        } else {
            assert(i < 7 && down_swap_match(g, i, j));
            assert(adjacent(i, j, i + 1, j));
            assert(!match_free(swapped(g, i, j, i + 1, j)));
            assert(has_move(g));
        }
    }
}

/// Exchanges the two cells of the board.
pub fn swap_cells(g: &mut Grid, a: (usize, usize), b: (usize, usize))
    requires
        grid_wf(old(g)@),
        a.0 < 8,
        a.1 < 8,
        b.0 < 8,
        b.1 < 8,
    ensures
        grid_wf(final(g)@),
        final(g)@ == swapped(old(g)@, a.0 as int, a.1 as int, b.0 as int, b.1 as int),
{
    let va = g.get(a.0, a.1);
    let vb = g.get(b.0, b.1);
    g.set(a.0, a.1, vb);
    g.set(b.0, b.1, va);
}

/// True when the two positions are adjacent.
pub fn is_adjacent(a: (usize, usize), b: (usize, usize)) -> (r: bool)
    requires
        a.0 < 8,
        a.1 < 8,
        b.0 < 8,
        b.1 < 8,
    ensures
        r == adjacent(a.0 as int, a.1 as int, b.0 as int, b.1 as int),
{
    (a.0 == b.0 && (a.1 == b.1 + 1 || b.1 == a.1 + 1))
        || (a.1 == b.1 && (a.0 == b.0 + 1 || b.0 == a.0 + 1))
}

} // verus!

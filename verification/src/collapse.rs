//! Gravity: per column, non-empty cells are compacted toward the bottom row,
//! keeping their relative order, and the distance each tile falls is
//! reported for presentation layers.

use vstd::prelude::*;
use crate::grid::{Cell, Grid, cell_at, flat, grid_wf, in_range};

verus! {

/// Column `j` of board contents `g`, top to bottom.
pub open spec fn col_seq(g: Seq<Cell>, j: int) -> Seq<Cell> {
    Seq::new(8, |i: int| cell_at(g, i, j))
}

/// The non-empty cells of a column, in their original top-to-bottom order.
pub open spec fn kept(col: Seq<Cell>) -> Seq<Cell>
    decreases col.len(),
{
    if col.len() == 0 {
        Seq::empty()
    } else if col.last() != Cell::Empty {
        kept(col.drop_last()).push(col.last())
    } else {
        kept(col.drop_last())
    }
}

/// Number of empty cells left at the top of a collapsed column.
pub open spec fn pad_len(col: Seq<Cell>) -> int {
    8 - kept(col).len()
}

/// Row at which the tile of row `i` comes to rest after the collapse.
pub open spec fn target_row(col: Seq<Cell>, i: int) -> int {
    pad_len(col) + kept(col.take(i)).len()
}

/// Cell at row `i` of a collapsed column: empties on top, then the kept
/// tiles in order.
pub open spec fn collapsed_cell(col: Seq<Cell>, i: int) -> Cell {
    if i < pad_len(col) {
        Cell::Empty
    } else {
        kept(col)[i - pad_len(col)]
    }
}

/// A valid fall report for column `j` of a board whose column was `col`:
/// the tile at row `e.0` was non-empty and falls `e.2 > 0` rows to its
/// resting row.
pub open spec fn move_ok(col: Seq<Cell>, j: int, e: (usize, usize, usize)) -> bool {
    &&& e.0 < 8
    &&& e.1 == j
    &&& e.2 > 0
    &&& col[e.0 as int] != Cell::Empty
    &&& e.0 + e.2 == target_row(col, e.0 as int)
    &&& target_row(col, e.0 as int) < 8
}

/// A collapsed column keeps at most as many tiles as it has cells.
pub proof fn lemma_kept_len(col: Seq<Cell>)
    ensures
        kept(col).len() <= col.len(),
    decreases col.len(),
{
    if col.len() > 0 {
        lemma_kept_len(col.drop_last());
    }
}

/// A column without empty cells keeps every tile in place.
pub proof fn lemma_kept_full(col: Seq<Cell>)
    requires
        forall|k: int| 0 <= k < col.len() ==> col[k] != Cell::Empty,
    ensures
        kept(col) == col,
    decreases col.len(),
{
    if col.len() > 0 {
        lemma_kept_full(col.drop_last());
        assert(kept(col) =~= col);
    }
}

/// Kept tiles are never empty cells.
pub proof fn lemma_kept_no_empty(col: Seq<Cell>)
    ensures
        forall|k: int| 0 <= k < kept(col).len() ==> kept(col)[k] != Cell::Empty,
    decreases col.len(),
{
    if col.len() > 0 {
        lemma_kept_no_empty(col.drop_last());
    }
}

/// Reads the non-empty cells of column `j` and the rows they come from.
#[verifier::loop_isolation(false)]
fn read_column(g: &Grid, j: usize) -> (out: (Vec<Cell>, Vec<usize>))
    requires
        grid_wf(g@),
        j < 8,
    ensures
        out.0@ == kept(col_seq(g@, j as int)),
        out.1@.len() == out.0@.len(),
        forall|k: int| 0 <= k < out.1@.len() ==>
            (#[trigger] out.1@[k]) < 8
            && col_seq(g@, j as int)[out.1@[k] as int] != Cell::Empty
            && kept(col_seq(g@, j as int).take(out.1@[k] as int)).len() == k,
        forall|i2: int| 0 <= i2 < 8 && col_seq(g@, j as int)[i2] != Cell::Empty ==>
            out.1@.contains(i2 as usize),
        forall|k1: int, k2: int| 0 <= k1 < k2 < out.1@.len() ==>
            #[trigger] out.1@[k1] < #[trigger] out.1@[k2],
{
    broadcast use vstd::seq_lib::lemma_seq_contains_after_push;

    let ghost col = col_seq(g@, j as int);
    let mut buf: Vec<Cell> = Vec::new();
    let mut rows: Vec<usize> = Vec::new();
    for i in 0..8usize
        invariant
            buf@ == kept(col.take(i as int)),
            rows@.len() == buf@.len(),
            forall|k: int| 0 <= k < rows@.len() ==>
                (#[trigger] rows@[k]) < i
                && col[rows@[k] as int] != Cell::Empty
                && kept(col.take(rows@[k] as int)).len() == k,
            forall|i2: int| 0 <= i2 < i && col[i2] != Cell::Empty ==>
                rows@.contains(i2 as usize),
            forall|k1: int, k2: int| 0 <= k1 < k2 < rows@.len() ==>
                #[trigger] rows@[k1] < #[trigger] rows@[k2],
    {
        proof {
            assert(col.take(i + 1int).drop_last() =~= col.take(i as int));
            assert(col.take(i + 1int).last() == col[i as int]);
            assert(col[i as int] == cell_at(g@, i as int, j as int));
        }
        let v = g.get(i, j);
        if v != Cell::Empty {
            rows.push(i);
            buf.push(v);
            proof {
                assert(rows@[rows@.len() - 1] == i);
            }
        }
    }
    proof {
        assert(col.take(8) =~= col);
    }
    (buf, rows)
}

/// Writes column `j` back as empties followed by the kept tiles.
#[verifier::loop_isolation(false)]
fn write_column(g: &mut Grid, j: usize, buf: &Vec<Cell>)
    requires
        grid_wf(old(g)@),
        j < 8,
        buf@ == kept(col_seq(old(g)@, j as int)),
    ensures
        grid_wf(final(g)@),
        forall|r: int, c: int| in_range(r, c) && c != j ==>
            #[trigger] cell_at(final(g)@, r, c) == cell_at(old(g)@, r, c),
        forall|i: int| 0 <= i < 8 ==>
            #[trigger] cell_at(final(g)@, i, j as int) == collapsed_cell(col_seq(old(g)@, j as int), i),
{
    let ghost col = col_seq(old(g)@, j as int);
    proof {
        lemma_kept_len(col);
    }
    let n = buf.len();
    let pad = 8 - n;
    for i in 0..8usize
        invariant
            grid_wf(g@),
            n == kept(col).len(),
            pad == pad_len(col),
            forall|r: int, c: int| #![trigger flat(r, c)] in_range(r, c) && c != j ==>
                cell_at(g@, r, c) == cell_at(old(g)@, r, c),
            forall|r: int| #![trigger flat(r, j as int)] 0 <= r < i ==>
                cell_at(g@, r, j as int) == collapsed_cell(col, r),
            forall|r: int| #![trigger flat(r, j as int)] i <= r < 8 ==>
                cell_at(g@, r, j as int) == cell_at(old(g)@, r, j as int),
    {
        if i < pad {
            g.set(i, j, Cell::Empty);
        } else {
            g.set(i, j, buf[i - pad]);
        }
        proof {
            assert forall|r: int, c: int| #![trigger flat(r, c)]
                in_range(r, c) && !(r == i as int && c == j as int)
                implies flat(r, c) != flat(i as int, j as int) by {
            }
        }
    }
}

/// Appends one fall report per tile of column `j` that moves.
#[verifier::loop_isolation(false)]
fn push_moves(
    j: usize,
    rows: &Vec<usize>,
    Ghost(col): Ghost<Seq<Cell>>,
    moves: &mut Vec<(usize, usize, usize)>,
)
    requires
        j < 8,
        rows@.len() == kept(col).len(),
        kept(col).len() <= 8,
        forall|k: int| 0 <= k < rows@.len() ==>
            (#[trigger] rows@[k]) < 8
            && col[rows@[k] as int] != Cell::Empty
            && kept(col.take(rows@[k] as int)).len() == k,
        forall|i2: int| 0 <= i2 < 8 && col[i2] != Cell::Empty ==>
            rows@.contains(i2 as usize),
        forall|k1: int, k2: int| 0 <= k1 < k2 < rows@.len() ==>
            #[trigger] rows@[k1] < #[trigger] rows@[k2],
    ensures
        final(moves)@.len() >= old(moves)@.len(),
        forall|k: int| 0 <= k < old(moves)@.len() ==>
            #[trigger] final(moves)@[k] == old(moves)@[k],
        forall|k: int| old(moves)@.len() <= k < final(moves)@.len() ==>
            move_ok(col, j as int, #[trigger] final(moves)@[k]),
        forall|i: usize| i < 8
            && col[i as int] != Cell::Empty
            && target_row(col, i as int) > i as int
            ==> final(moves)@.contains(
                (i, j, #[trigger] (target_row(col, i as int) - i) as usize)),
        forall|m1: int, m2: int|
            old(moves)@.len() <= m1 < m2 < final(moves)@.len() ==>
                (#[trigger] final(moves)@[m1]).0 < (#[trigger] final(moves)@[m2]).0,
{
    broadcast use vstd::seq_lib::lemma_seq_contains_after_push;

    let n = rows.len();
    let pad = 8 - n;
    let ghost premoves = moves@;
    let mut k: usize = 0;
    while k < n
        invariant
            k <= n,
            n == kept(col).len(),
            pad == pad_len(col),
            moves@.len() >= premoves.len(),
            forall|k2: int| 0 <= k2 < premoves.len() ==> #[trigger] moves@[k2] == premoves[k2],
            forall|k2: int| premoves.len() <= k2 < moves@.len() ==>
                move_ok(col, j as int, #[trigger] moves@[k2]),
            forall|k2: int| 0 <= k2 < k ==> {
                let i2 = #[trigger] rows@[k2] as int;
                target_row(col, i2) > i2 ==> moves@.contains(
                    (rows@[k2], j, (target_row(col, i2) - i2) as usize))
            },
            forall|m1: int, m2: int| premoves.len() <= m1 < m2 < moves@.len() ==>
                (#[trigger] moves@[m1]).0 < (#[trigger] moves@[m2]).0,
            forall|m: int| premoves.len() <= m < moves@.len() ==>
                k > 0 && (#[trigger] moves@[m]).0 <= rows@[k - 1],
        decreases n - k,
    {
        let i = rows[k];
        let t = pad + k;
        proof {
            assert(target_row(col, i as int) == pad_len(col) + kept(col.take(i as int)).len());
        }
        if t > i {
            moves.push((i, j, t - i));
        }
        k = k + 1;
    }
    proof {
        assert forall|i: usize| i < 8
            && col[i as int] != Cell::Empty
            && target_row(col, i as int) > i as int
            implies moves@.contains(
                (i, j, (target_row(col, i as int) - i) as usize)) by {
            assert(rows@.contains(i));
            let k2 = choose|k2: int| 0 <= k2 < rows@.len() && rows@[k2] == i;
            assert(rows@[k2] == i);
        }
    }
}

/// Applies gravity to every column: non-empty cells sink to the bottom,
/// keeping their order, and empties gather at the top.  Returns, per tile
/// that moves, `(row, column, distance fallen)`.  The end state of the board
/// is authoritative; the report only serves animation.
#[verifier::loop_isolation(false)]
pub fn collapse(g: &mut Grid) -> (moves: Vec<(usize, usize, usize)>)
    requires
        grid_wf(old(g)@),
    ensures
        grid_wf(final(g)@),
        forall|i: int, j: int| in_range(i, j) ==>
            #[trigger] cell_at(final(g)@, i, j) == collapsed_cell(col_seq(old(g)@, j), i),
        forall|k: int| 0 <= k < moves@.len() ==> {
            let e = #[trigger] moves@[k];
            e.1 < 8 && move_ok(col_seq(old(g)@, e.1 as int), e.1 as int, e)
        },
        moves@.no_duplicates(),
        forall|i: usize, j: usize| i < 8 && j < 8
            && cell_at(old(g)@, i as int, j as int) != Cell::Empty
            && target_row(col_seq(old(g)@, j as int), i as int) > i as int
            ==> moves@.contains(
                (i, j, #[trigger] (target_row(col_seq(old(g)@, j as int), i as int) - i) as usize)),
{
    let mut moves: Vec<(usize, usize, usize)> = Vec::new();
    for j in 0..8usize
        invariant
            grid_wf(g@),
            forall|r: int, c: int| in_range(r, c) && c >= j ==>
                #[trigger] cell_at(g@, r, c) == cell_at(old(g)@, r, c),
            forall|r: int, c: int| in_range(r, c) && c < j ==>
                #[trigger] cell_at(g@, r, c) == collapsed_cell(col_seq(old(g)@, c), r),
            forall|k: int| 0 <= k < moves@.len() ==> {
                let e = #[trigger] moves@[k];
                e.1 < j && move_ok(col_seq(old(g)@, e.1 as int), e.1 as int, e)
            },
            forall|k1: int, k2: int| 0 <= k1 < k2 < moves@.len() ==>
                ((#[trigger] moves@[k1]).1 < (#[trigger] moves@[k2]).1
                    || (moves@[k1].1 == moves@[k2].1 && moves@[k1].0 < moves@[k2].0)),
            forall|i: usize, c: usize| i < 8 && c < j
                && cell_at(old(g)@, i as int, c as int) != Cell::Empty
                && target_row(col_seq(old(g)@, c as int), i as int) > i as int
                ==> moves@.contains(
                    (i, c, #[trigger] (target_row(col_seq(old(g)@, c as int), i as int) - i) as usize)),
    {
        proof {
            assert(col_seq(g@, j as int) =~= col_seq(old(g)@, j as int));
        }
        let ghost col = col_seq(g@, j as int);
        let ghost premoves = moves@;
        let (buf, rows) = read_column(g, j);
        proof {
            lemma_kept_len(col);
        }
        write_column(g, j, &buf);
        push_moves(j, &rows, Ghost(col), &mut moves);
        proof {
            assert forall|i: usize, c: usize| i < 8 && c < j + 1
                && cell_at(old(g)@, i as int, c as int) != Cell::Empty
                && target_row(col_seq(old(g)@, c as int), i as int) > i as int
                implies moves@.contains(
                    (i, c, (target_row(col_seq(old(g)@, c as int), i as int) - i) as usize)) by {
                if c < j {
                    let e = (i, c, (target_row(col_seq(old(g)@, c as int), i as int) - i) as usize);
                    let k2 = choose|k2: int| 0 <= k2 < premoves.len() && premoves[k2] == e;
                    assert(moves@[k2] == e);
                    assert(0 <= k2 < moves@.len());
                } else {
                    assert(cell_at(old(g)@, i as int, c as int) == col[i as int]);
                }
            }
        }
    }
    proof {
        assert forall|k1: int, k2: int|
            0 <= k1 < moves@.len() && 0 <= k2 < moves@.len() && k1 != k2
            implies moves@[k1] != moves@[k2] by {
            if k1 < k2 {
                assert(moves@[k1].1 < moves@[k2].1
                    || (moves@[k1].1 == moves@[k2].1 && moves@[k1].0 < moves@[k2].0));
            } else {
                assert(moves@[k2].1 < moves@[k1].1
                    || (moves@[k2].1 == moves@[k1].1 && moves@[k2].0 < moves@[k1].0));
            }
        }
    }
    moves
}

} // verus!

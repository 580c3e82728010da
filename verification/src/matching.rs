//! Match detection: the cells that sit in a horizontal or vertical run of
//! three or more equal, non-empty colors.

use vstd::prelude::*;
use crate::grid::{Cell, Grid, cell_at, flat, grid_wf, in_range};

verus! {

/// A horizontal window of three equal non-empty cells starting in row `r`,
/// column `s`.
pub open spec fn hwin(g: Seq<Cell>, r: int, s: int) -> bool {
    &&& cell_at(g, r, s) != Cell::Empty
    &&& cell_at(g, r, s) == cell_at(g, r, s + 1)
    &&& cell_at(g, r, s + 1) == cell_at(g, r, s + 2)
}

/// A vertical window of three equal non-empty cells starting in row `s`,
/// column `c`.
pub open spec fn vwin(g: Seq<Cell>, s: int, c: int) -> bool {
    &&& cell_at(g, s, c) != Cell::Empty
    &&& cell_at(g, s, c) == cell_at(g, s + 1, c)
    &&& cell_at(g, s + 1, c) == cell_at(g, s + 2, c)
}

/// Cell `(r, c)` lies in some horizontal run of length at least 3.  A cell
/// lies in such a maximal run exactly when some three-cell window of equal
/// non-empty cells covers it.
pub open spec fn h_matched(g: Seq<Cell>, r: int, c: int) -> bool {
    exists|s: int| 0 <= s <= 5 && s <= c <= s + 2 && #[trigger] hwin(g, r, s)
}

/// Cell `(r, c)` lies in some vertical run of length at least 3.
pub open spec fn v_matched(g: Seq<Cell>, r: int, c: int) -> bool {
    exists|s: int| 0 <= s <= 5 && s <= r <= s + 2 && #[trigger] vwin(g, s, c)
}

/// Cell `(r, c)` is part of some run of length at least 3, in either
/// direction.  Runs of empty cells never count.
pub open spec fn matched(g: Seq<Cell>, r: int, c: int) -> bool {
    h_matched(g, r, c) || v_matched(g, r, c)
}

/// No cell of the board is part of any run of length at least 3.
pub open spec fn match_free(g: Seq<Cell>) -> bool {
    forall|r: int, c: int| in_range(r, c) ==> !(#[trigger] matched(g, r, c))
}

/// Number of matched cells in row `r` among columns `0 .. c_end`.
pub open spec fn row_mcount(g: Seq<Cell>, r: int, c_end: int) -> nat
    decreases c_end,
{
    if c_end <= 0 {
        0
    } else {
        row_mcount(g, r, c_end - 1) + (if matched(g, r, c_end - 1) { 1nat } else { 0nat })
    }
}

/// Number of matched cells in rows `0 .. r_end`.
pub open spec fn mcount_upto(g: Seq<Cell>, r_end: int) -> nat
    decreases r_end,
{
    if r_end <= 0 {
        0
    } else {
        mcount_upto(g, r_end - 1) + row_mcount(g, r_end - 1, 8)
    }
}

/// Total number of matched cells of the board.
pub open spec fn matched_count(g: Seq<Cell>) -> nat {
    mcount_upto(g, 8)
}

proof fn lemma_row_count_zero(g: Seq<Cell>, r: int, c_end: int)
    ensures
        row_mcount(g, r, c_end) == 0 <==> (forall|c: int| 0 <= c < c_end ==> !(#[trigger] matched(g, r, c))),
    decreases c_end,
{
    if c_end > 0 {
        lemma_row_count_zero(g, r, c_end - 1);
    }
}

proof fn lemma_grid_count_zero(g: Seq<Cell>, r_end: int)
    ensures
        mcount_upto(g, r_end) == 0 <==> (forall|r: int, c: int|
            0 <= r < r_end && 0 <= c < 8 ==> !(#[trigger] matched(g, r, c))),
    decreases r_end,
{
    if r_end > 0 {
        lemma_grid_count_zero(g, r_end - 1);
        lemma_row_count_zero(g, r_end - 1, 8);
    }
}

/// A board is match-free exactly when its matched-cell count is zero.
pub proof fn lemma_match_free_iff_count_zero(g: Seq<Cell>)
    ensures
        match_free(g) <==> matched_count(g) == 0,
{
    lemma_grid_count_zero(g, 8);
    if matched_count(g) == 0 {
        assert forall|r: int, c: int| in_range(r, c) implies !(#[trigger] matched(g, r, c)) by {
        }
    }
}

proof fn lemma_row_mcount_mono(g: Seq<Cell>, r: int, a: int, b: int)
    requires
        a <= b,
    ensures
        row_mcount(g, r, a) <= row_mcount(g, r, b),
    decreases b - a,
{
    if a < b {
        lemma_row_mcount_mono(g, r, a, b - 1);
    }
}

proof fn lemma_mcount_upto_mono(g: Seq<Cell>, a: int, b: int)
    requires
        a <= b,
    ensures
        mcount_upto(g, a) <= mcount_upto(g, b),
    decreases b - a,
{
    if a < b {
        lemma_mcount_upto_mono(g, a, b - 1);
    }
}

proof fn lemma_row_mcount_one(g: Seq<Cell>, r: int, c: int)
    requires
        0 <= c < 8,
        matched(g, r, c),
    ensures
        row_mcount(g, r, 8) >= 1,
{
    lemma_row_mcount_mono(g, r, c + 1, 8);
}

/// A board is either match-free or has at least three matched cells: every
/// run has length at least 3, and each of its cells is matched.
pub proof fn lemma_min_match_size(g: Seq<Cell>)
    ensures
        matched_count(g) == 0 || matched_count(g) >= 3,
{
    lemma_match_free_iff_count_zero(g);
    if matched_count(g) > 0 {
        assert(!match_free(g));
        let (r, c) = choose|r: int, c: int| in_range(r, c) && #[trigger] matched(g, r, c);
        if h_matched(g, r, c) {
            let s = choose|s: int| 0 <= s <= 5 && s <= c <= s + 2 && #[trigger] hwin(g, r, s);
            assert(matched(g, r, s));
            assert(matched(g, r, s + 1));
            assert(matched(g, r, s + 2));
            lemma_row_mcount_mono(g, r, s + 3, 8);
            assert(row_mcount(g, r, s + 1) == row_mcount(g, r, s) + 1);
            assert(row_mcount(g, r, s + 2) == row_mcount(g, r, s + 1) + 1);
            assert(row_mcount(g, r, s + 3) == row_mcount(g, r, s + 2) + 1);
            assert(row_mcount(g, r, 8) >= 3);
            lemma_mcount_upto_mono(g, r + 1, 8);
            assert(mcount_upto(g, r + 1) == mcount_upto(g, r) + row_mcount(g, r, 8));
        } else {
            let s = choose|s: int| 0 <= s <= 5 && s <= r <= s + 2 && #[trigger] vwin(g, s, c);
            assert(vwin(g, s, c));
            assert(matched(g, s, c));
            assert(matched(g, s + 1, c));
            assert(matched(g, s + 2, c));
            lemma_row_mcount_one(g, s, c);
            lemma_row_mcount_one(g, s + 1, c);
            lemma_row_mcount_one(g, s + 2, c);
            lemma_mcount_upto_mono(g, s + 3, 8);
            assert(mcount_upto(g, s + 1) == mcount_upto(g, s) + row_mcount(g, s, 8));
            assert(mcount_upto(g, s + 2) == mcount_upto(g, s + 1) + row_mcount(g, s + 1, 8));
            assert(mcount_upto(g, s + 3) == mcount_upto(g, s + 2) + row_mcount(g, s + 2, 8));
        }
    }
}

/// Cell `(r, c)` differs from its left and from its upper neighbor, where
/// those exist.
pub open spec fn differs_backward(g: Seq<Cell>, r: int, c: int) -> bool {
    &&& c > 0 ==> cell_at(g, r, c) != cell_at(g, r, c - 1)
    &&& r > 0 ==> cell_at(g, r, c) != cell_at(g, r - 1, c)
}

/// A board whose horizontally and vertically neighboring cells always
/// differ has no run at all.
pub proof fn lemma_distinct_neighbors_match_free(g: Seq<Cell>)
    requires
        grid_wf(g),
        forall|r: int, c: int| in_range(r, c) ==> #[trigger] differs_backward(g, r, c),
    ensures
        match_free(g),
{
    assert forall|r: int, c: int| in_range(r, c) implies !matched(g, r, c) by {
        if h_matched(g, r, c) {
            let s = choose|s: int| 0 <= s <= 5 && s <= c <= s + 2 && #[trigger] hwin(g, r, s);
            assert(differs_backward(g, r, s + 1));
        }
        if v_matched(g, r, c) {
            let s = choose|s: int| 0 <= s <= 5 && s <= r <= s + 2 && #[trigger] vwin(g, s, c);
            assert(differs_backward(g, s + 1, c));
        }
    }
}

/// True when the three-cell horizontal window starting at `(r, s)` holds one
/// non-empty color.
fn hwin_at(g: &Grid, r: usize, s: usize) -> (b: bool)
    requires
        grid_wf(g@),
        r < 8,
        s <= 5,
    ensures
        b == hwin(g@, r as int, s as int),
{
    let a = g.get(r, s);
    a != Cell::Empty && a == g.get(r, s + 1) && g.get(r, s + 1) == g.get(r, s + 2)
}

/// True when the three-cell vertical window starting at `(s, c)` holds one
/// non-empty color.
fn vwin_at(g: &Grid, s: usize, c: usize) -> (b: bool)
    requires
        grid_wf(g@),
        s <= 5,
        c < 8,
    ensures
        b == vwin(g@, s as int, c as int),
{
    let a = g.get(s, c);
    a != Cell::Empty && a == g.get(s + 1, c) && g.get(s + 1, c) == g.get(s + 2, c)
}

/// Whether cell `(r, c)` is part of some run of length at least 3.  At most
/// three windows in each direction can cover the cell, so each is examined.
pub fn cell_matched(g: &Grid, r: usize, c: usize) -> (b: bool)
    requires
        grid_wf(g@),
        r < 8,
        c < 8,
    ensures
        b == matched(g@, r as int, c as int),
{
    let mut b = false;
    if c >= 2 && hwin_at(g, r, c - 2) {
        b = true;
    }
    if !b && c >= 1 && c <= 6 && hwin_at(g, r, c - 1) {
        b = true;
    }
    if !b && c <= 5 && hwin_at(g, r, c) {
        b = true;
    }
    if !b && r >= 2 && vwin_at(g, r - 2, c) {
        b = true;
    }
    if !b && r >= 1 && r <= 6 && vwin_at(g, r - 1, c) {
        b = true;
    }
    if !b && r <= 5 && vwin_at(g, r, c) {
        b = true;
    }
    proof {
        if !b {
            assert forall|s: int| 0 <= s <= 5 && s <= c as int <= s + 2 implies !hwin(g@, r as int, s) by {
                assert(s == c - 2 || s == c - 1 || s == c);
            }
            assert forall|s: int| 0 <= s <= 5 && s <= r as int <= s + 2 implies !vwin(g@, s, c as int) by {
                assert(s == r - 2 || s == r - 1 || s == r);
            }
        }
    }
    b
}

/// All cells participating in any run of three or more equal non-empty
/// colors, in row-major order and without repetition.  Pure: safe to call on
/// any board, including one mid-transition.
#[verifier::loop_isolation(false)]
pub fn find_matches(g: &Grid) -> (out: Vec<(usize, usize)>)
    requires
        grid_wf(g@),
    ensures
        forall|r: usize, c: usize|
            r < 8 && c < 8 ==> (#[trigger] out@.contains((r, c)) == matched(g@, r as int, c as int)),
        forall|k: int| 0 <= k < out@.len() ==> (#[trigger] out@[k]).0 < 8 && out@[k].1 < 8,
        out@.no_duplicates(),
        out@.len() == matched_count(g@),
{
    broadcast use vstd::seq_lib::lemma_seq_contains_after_push;

    let mut out: Vec<(usize, usize)> = Vec::new();
    for r in 0..8usize
        invariant
            out@.len() == mcount_upto(g@, r as int),
            forall|rr: usize, cc: usize|
                rr < 8 && cc < 8 ==> (#[trigger] out@.contains((rr, cc))
                    == (matched(g@, rr as int, cc as int) && rr < r)),
            forall|k: int| 0 <= k < out@.len() ==>
                (#[trigger] out@[k]).0 < 8 && out@[k].1 < 8
                && flat(out@[k].0 as int, out@[k].1 as int) < flat(r as int, 0),
            forall|k1: int, k2: int| 0 <= k1 < k2 < out@.len() ==>
                flat(#[trigger] out@[k1].0 as int, out@[k1].1 as int)
                    < flat(#[trigger] out@[k2].0 as int, out@[k2].1 as int),
    {
        for c in 0..8usize
            invariant
                out@.len() == mcount_upto(g@, r as int) + row_mcount(g@, r as int, c as int),
                forall|rr: usize, cc: usize|
                    rr < 8 && cc < 8 ==> (#[trigger] out@.contains((rr, cc))
                        == (matched(g@, rr as int, cc as int)
                            && (rr < r || (rr == r && cc < c)))),
                forall|k: int| 0 <= k < out@.len() ==>
                    (#[trigger] out@[k]).0 < 8 && out@[k].1 < 8
                    && flat(out@[k].0 as int, out@[k].1 as int) < flat(r as int, c as int),
                forall|k1: int, k2: int| 0 <= k1 < k2 < out@.len() ==>
                    flat(#[trigger] out@[k1].0 as int, out@[k1].1 as int)
                        < flat(#[trigger] out@[k2].0 as int, out@[k2].1 as int),
        {
            if cell_matched(g, r, c) {
                out.push((r, c));
            }
        }
    }
    proof {
        assert forall|k1: int, k2: int|
            0 <= k1 < out@.len() && 0 <= k2 < out@.len() && k1 != k2 implies out@[k1] != out@[k2] by {
            if k1 < k2 {
                assert(flat(out@[k1].0 as int, out@[k1].1 as int)
                    < flat(out@[k2].0 as int, out@[k2].1 as int));
            } else {
                assert(flat(out@[k2].0 as int, out@[k2].1 as int)
                    < flat(out@[k1].0 as int, out@[k1].1 as int));
            }
        }
    }
    out
}

/// True when the board has no run of three or more anywhere.
pub fn grid_match_free(g: &Grid) -> (b: bool)
    requires
        grid_wf(g@),
    ensures
        b == match_free(g@),
{
    let m = find_matches(g);
    proof {
        lemma_match_free_iff_count_zero(g@);
    }
    m.len() == 0
}

} // verus!

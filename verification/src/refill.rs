//! Refilling: empty cells receive colors drawn from a color source, either
//! the process random generator or a deterministic cycle that headless
//! drivers and tests can inject.

use vstd::prelude::*;
use rand::Rng;
use crate::grid::{Cell, Grid, cell_at, flat, grid_wf, in_range, no_empty};
use crate::matching::differs_backward;

verus! {

use vstd::arithmetic::div_mod::{
    lemma_add_mod_noop, lemma_mod_division_less_than_divisor, lemma_mod_self_0,
    lemma_small_mod,
};

/// Relies on `rand::thread_rng` and `rand::Rng::gen_range`: sampling the
/// non-empty range `1..=5` yields a uniform value inside it and does not
/// panic.
#[verifier::external_body]
fn random_code() -> (r: u8)
    ensures
        1 <= r && r <= 5,
{
    rand::thread_rng().gen_range(1u8..=5u8)
}

/// The color behind code `x`, mirroring the drawing order of the source
/// generator.
fn code_to_color(x: u8) -> (c: Cell)
    requires
        1 <= x && x <= 5,
    ensures
        c != Cell::Empty,
{
    match x {
        1 => Cell::Red,
        2 => Cell::Green,
        3 => Cell::Blue,
        4 => Cell::Yellow,
        _ => Cell::Purple,
    }
}

/// Where fresh colors come from.  A source is either the process random
/// generator or a cycling pattern of fixed colors; the latter makes every
/// board operation deterministic, which headless drivers and tests use.
pub struct ColorSource {
    random: bool,
    pattern: Vec<Cell>,
    next: usize,
}

impl ColorSource {
    /// Whether this source draws from the random generator.
    pub closed spec fn is_random(self) -> bool {
        self.random
    }

    /// The cycling pattern of a deterministic source.
    pub closed spec fn pattern_of(self) -> Seq<Cell> {
        self.pattern@
    }

    /// Position of the next pattern color a deterministic source hands out.
    pub closed spec fn pos_of(self) -> int {
        self.next as int
    }

    /// A usable source: a deterministic one cycles over at least one color,
    /// none of them empty.
    pub closed spec fn wf(self) -> bool {
        self.random || (
            self.pattern@.len() > 0
            && self.next < self.pattern@.len()
            && forall|k: int| 0 <= k < self.pattern@.len() ==> self.pattern@[k] != Cell::Empty
        )
    }

    /// The source backed by the process random generator.
    pub fn random_source() -> (s: ColorSource)
        ensures
            s.wf(),
            s.is_random(),
    {
        ColorSource { random: true, pattern: Vec::new(), next: 0 }
    }

    /// A deterministic source cycling over `pattern`.
    pub fn cycle(pattern: Vec<Cell>) -> (s: ColorSource)
        requires
            pattern@.len() > 0,
            forall|k: int| 0 <= k < pattern@.len() ==> pattern@[k] != Cell::Empty,
        ensures
            s.wf(),
            !s.is_random(),
            s.pattern_of() == pattern@,
            s.pos_of() == 0,
    {
        ColorSource { random: false, pattern, next: 0 }
    }

    /// The next color.  Never empty; from a deterministic source it is the
    /// pattern color at the current position, and the position advances
    /// cyclically.
    pub fn next_color(&mut self) -> (c: Cell)
        requires
            old(self).wf(),
        ensures
            final(self).wf(),
            c != Cell::Empty,
            final(self).is_random() == old(self).is_random(),
            final(self).pattern_of() == old(self).pattern_of(),
            !old(self).is_random() ==> {
                &&& c == old(self).pattern_of()[old(self).pos_of()]
                &&& final(self).pos_of() == (
                    if old(self).pos_of() + 1 == old(self).pattern_of().len() {
                        0int
                    } else {
                        old(self).pos_of() + 1
                    })
            },
            old(self).is_random() ==> final(self).pos_of() == old(self).pos_of(),
    {
        if self.random {
            code_to_color(random_code())
        } else {
            let len = self.pattern.len();
            let c = self.pattern[self.next];
            self.next = if self.next + 1 == len {
                0
            } else {
                self.next + 1
            };
            c
        }
    }
}

/// The color a deterministic source hands out on its `k`-th upcoming draw
/// (counting from zero).
pub open spec fn draw_color(src: ColorSource, k: int) -> Cell {
    src.pattern_of()[(src.pos_of() + k) % (src.pattern_of().len() as int)]
}

/// Position of a deterministic source after `k` more draws.
pub open spec fn pos_after(src: ColorSource, k: int) -> int {
    (src.pos_of() + k) % (src.pattern_of().len() as int)
}

/// Number of empty cells in row `r` among columns `0 .. c_end`.
pub open spec fn row_ecount(g: Seq<Cell>, r: int, c_end: int) -> nat
    decreases c_end,
{
    if c_end <= 0 {
        0
    } else {
        row_ecount(g, r, c_end - 1) + (if cell_at(g, r, c_end - 1) == Cell::Empty { 1nat } else { 0nat })
    }
}

/// Number of empty cells in rows `0 .. r_end`.
pub open spec fn ecount_upto(g: Seq<Cell>, r_end: int) -> nat
    decreases r_end,
{
    if r_end <= 0 {
        0
    } else {
        ecount_upto(g, r_end - 1) + row_ecount(g, r_end - 1, 8)
    }
}

/// Number of empty cells of the board.
pub open spec fn empty_count(g: Seq<Cell>) -> nat {
    ecount_upto(g, 8)
}

/// Number of empty cells strictly before `(r, c)` in row-major order.
pub open spec fn empties_before(g: Seq<Cell>, r: int, c: int) -> nat {
    ecount_upto(g, r) + row_ecount(g, r, c)
}

/// Cell `(rr, cc)` of `g` holds the pattern color that its rank among the
/// empty cells of `g0` selects from the source `src0`.
spec fn det_cell_ok(src0: ColorSource, g0: Seq<Cell>, g: Seq<Cell>, rr: int, cc: int) -> bool {
    cell_at(g, rr, cc) == draw_color(src0, empties_before(g0, rr, cc) as int)
}

/// Advancing a cyclic position by one more draw.
proof fn lemma_pos_step(a: int, m: int)
    requires
        m > 0,
        a >= 0,
    ensures
        (if a % m + 1 == m { 0int } else { a % m + 1 }) == (a + 1) % m,
{
    lemma_mod_division_less_than_divisor(a, m);
    lemma_add_mod_noop(a, 1, m);
    if m == 1 {
        lemma_mod_self_0(m);
    } else {
        lemma_small_mod(1nat, m as nat);
        if a % m + 1 == m {
            lemma_mod_self_0(m);
        } else {
            lemma_small_mod((a % m + 1) as nat, m as nat);
        }
    }
}

/// Replaces every empty cell by a fresh color from the source; non-empty
/// cells stay exactly as they are.  Immediate re-matching is not suppressed
/// here: the settle loop handles it.  From a deterministic source, the
/// empty cells receive the upcoming pattern colors in row-major order.
#[verifier::rlimit(60)]
pub fn fill_empty(g: &mut Grid, src: &mut ColorSource)
    requires
        grid_wf(old(g)@),
        old(src).wf(),
    ensures
        grid_wf(final(g)@),
        final(src).wf(),
        final(src).is_random() == old(src).is_random(),
        final(src).pattern_of() == old(src).pattern_of(),
        no_empty(final(g)@),
        forall|r: int, c: int| #![trigger flat(r, c)]
            in_range(r, c) && cell_at(old(g)@, r, c) != Cell::Empty ==>
                cell_at(final(g)@, r, c) == cell_at(old(g)@, r, c),
        !old(src).is_random() ==> {
            &&& forall|r: int, c: int| #![trigger flat(r, c)]
                in_range(r, c) && cell_at(old(g)@, r, c) == Cell::Empty ==>
                    cell_at(final(g)@, r, c)
                        == draw_color(*old(src), empties_before(old(g)@, r, c) as int)
            &&& final(src).pos_of() == pos_after(*old(src), empty_count(old(g)@) as int)
        },
{
    proof {
        if !old(src).is_random() {
            lemma_small_mod(old(src).pos_of() as nat, old(src).pattern_of().len() as nat);
        }
    }
    for r in 0..8usize
        invariant
            grid_wf(g@),
            src.wf(),
            src.is_random() == old(src).is_random(),
            src.pattern_of() == old(src).pattern_of(),
            forall|rr: int, cc: int| #![trigger flat(rr, cc)]
                in_range(rr, cc) && cell_at(old(g)@, rr, cc) != Cell::Empty ==>
                    cell_at(g@, rr, cc) == cell_at(old(g)@, rr, cc),
            forall|rr: int, cc: int| #![trigger flat(rr, cc)]
                in_range(rr, cc) && rr >= r ==>
                    cell_at(g@, rr, cc) == cell_at(old(g)@, rr, cc),
            forall|rr: int, cc: int| #![trigger flat(rr, cc)]
                in_range(rr, cc) && rr < r ==> cell_at(g@, rr, cc) != Cell::Empty,
            !old(src).is_random() ==> {
                &&& src.pos_of() == pos_after(*old(src), ecount_upto(old(g)@, r as int) as int)
                &&& forall|rr: int, cc: int|
                    in_range(rr, cc) && rr < r && cell_at(old(g)@, rr, cc) == Cell::Empty ==>
                        #[trigger] det_cell_ok(*old(src), old(g)@, g@, rr, cc)
            },
    {
        for c in 0..8usize
            invariant
                r < 8,
                grid_wf(g@),
                src.wf(),
                src.is_random() == old(src).is_random(),
                src.pattern_of() == old(src).pattern_of(),
                forall|rr: int, cc: int| #![trigger flat(rr, cc)]
                    in_range(rr, cc) && cell_at(old(g)@, rr, cc) != Cell::Empty ==>
                        cell_at(g@, rr, cc) == cell_at(old(g)@, rr, cc),
                forall|rr: int, cc: int| #![trigger flat(rr, cc)]
                    in_range(rr, cc) && (rr > r || (rr == r && cc >= c)) ==>
                        cell_at(g@, rr, cc) == cell_at(old(g)@, rr, cc),
                forall|rr: int, cc: int| #![trigger flat(rr, cc)]
                    in_range(rr, cc) && (rr < r || (rr == r && cc < c)) ==>
                        cell_at(g@, rr, cc) != Cell::Empty,
                !old(src).is_random() ==> {
                    &&& src.pos_of() == pos_after(
                        *old(src), empties_before(old(g)@, r as int, c as int) as int)
                    &&& forall|rr: int, cc: int|
                        in_range(rr, cc) && (rr < r || (rr == r && cc < c))
                            && cell_at(old(g)@, rr, cc) == Cell::Empty ==>
                            #[trigger] det_cell_ok(*old(src), old(g)@, g@, rr, cc)
                },
        {
            proof {
                assert(cell_at(g@, r as int, c as int)
                    == cell_at(old(g)@, r as int, c as int)) by {
                    assert(flat(r as int, c as int) == r * 8 + c);
                }
            }
            let ghost gpre = g@;
            if g.get(r, c) == Cell::Empty {
                let v = src.next_color();
                proof {
                    if !old(src).is_random() {
                        let ghost k = empties_before(old(g)@, r as int, c as int) as int;
                        lemma_pos_step(
                            old(src).pos_of() + k,
                            old(src).pattern_of().len() as int,
                        );
                        assert(v == draw_color(*old(src), k));
                        assert(src.pos_of() == pos_after(*old(src), k + 1));
                    }
                }
                g.set(r, c, v);
            }
            proof {
                assert forall|rr: int, cc: int| #![trigger flat(rr, cc)]
                    in_range(rr, cc) && !(rr == r as int && cc == c as int)
                    implies flat(rr, cc) != flat(r as int, c as int) by {
                }
                assert(empties_before(old(g)@, r as int, c as int + 1)
                    == empties_before(old(g)@, r as int, c as int)
                        + (if cell_at(old(g)@, r as int, c as int) == Cell::Empty { 1nat } else { 0nat }));
                if !old(src).is_random() {
                    assert forall|rr: int, cc: int|
                        in_range(rr, cc) && (rr < r as int || (rr == r as int && cc < c as int + 1))
                            && cell_at(old(g)@, rr, cc) == Cell::Empty
                        implies #[trigger] det_cell_ok(*old(src), old(g)@, g@, rr, cc) by {
                        if rr == r as int && cc == c as int {
                        } else {
                            assert(det_cell_ok(*old(src), old(g)@, gpre, rr, cc));
                            assert(flat(rr, cc) != flat(r as int, c as int));
                            assert(cell_at(g@, rr, cc) == cell_at(gpre, rr, cc));
                        }
                    }
                }
            }
        }
        proof {
            assert(ecount_upto(old(g)@, r as int + 1)
                == ecount_upto(old(g)@, r as int) + row_ecount(old(g)@, r as int, 8));
        }
    }
    proof {
        if !old(src).is_random() {
            assert forall|r: int, c: int| #![trigger flat(r, c)]
                in_range(r, c) && cell_at(old(g)@, r, c) == Cell::Empty
                implies cell_at(g@, r, c)
                    == draw_color(*old(src), empties_before(old(g)@, r, c) as int) by {
                assert(det_cell_ok(*old(src), old(g)@, g@, r, c));
            }
        }
    }
}

/// Overwrites every cell with a fresh color from the source.
#[verifier::loop_isolation(false)]
pub fn fill_all(g: &mut Grid, src: &mut ColorSource)
    requires
        grid_wf(old(g)@),
        old(src).wf(),
    ensures
        grid_wf(final(g)@),
        final(src).wf(),
        final(src).is_random() == old(src).is_random(),
        final(src).pattern_of() == old(src).pattern_of(),
        no_empty(final(g)@),
        !old(src).is_random() ==> {
            &&& forall|r: int, c: int| #![trigger flat(r, c)] in_range(r, c) ==>
                cell_at(final(g)@, r, c) == draw_color(*old(src), flat(r, c))
            &&& final(src).pos_of() == pos_after(*old(src), 64)
        },
{
    proof {
        if !old(src).is_random() {
            lemma_small_mod(old(src).pos_of() as nat, old(src).pattern_of().len() as nat);
        }
    }
    for r in 0..8usize
        invariant
            grid_wf(g@),
            src.wf(),
            src.is_random() == old(src).is_random(),
            src.pattern_of() == old(src).pattern_of(),
            forall|rr: int, cc: int| #![trigger flat(rr, cc)]
                in_range(rr, cc) && rr < r ==> cell_at(g@, rr, cc) != Cell::Empty,
            !old(src).is_random() ==> {
                &&& src.pos_of() == pos_after(*old(src), 8 * r)
                &&& forall|rr: int, cc: int| #![trigger flat(rr, cc)]
                    in_range(rr, cc) && rr < r ==>
                        cell_at(g@, rr, cc) == draw_color(*old(src), flat(rr, cc))
            },
    {
        for c in 0..8usize
            invariant
                grid_wf(g@),
                src.wf(),
                src.is_random() == old(src).is_random(),
                src.pattern_of() == old(src).pattern_of(),
                forall|rr: int, cc: int| #![trigger flat(rr, cc)]
                    in_range(rr, cc) && (rr < r || (rr == r && cc < c)) ==>
                        cell_at(g@, rr, cc) != Cell::Empty,
                !old(src).is_random() ==> {
                    &&& src.pos_of() == pos_after(*old(src), flat(r as int, c as int))
                    &&& forall|rr: int, cc: int| #![trigger flat(rr, cc)]
                        in_range(rr, cc) && (rr < r || (rr == r && cc < c)) ==>
                            cell_at(g@, rr, cc) == draw_color(*old(src), flat(rr, cc))
                },
        {
            let v = src.next_color();
            proof {
                if !old(src).is_random() {
                    lemma_pos_step(
                        old(src).pos_of() + flat(r as int, c as int),
                        old(src).pattern_of().len() as int,
                    );
                    assert(v == draw_color(*old(src), flat(r as int, c as int)));
                    assert(src.pos_of() == pos_after(*old(src), flat(r as int, c as int) + 1));
                }
            }
            g.set(r, c, v);
            proof {
                assert forall|rr: int, cc: int| #![trigger flat(rr, cc)]
                    in_range(rr, cc) && !(rr == r as int && cc == c as int)
                    implies flat(rr, cc) != flat(r as int, c as int) by {
                }
                assert(flat(r as int, c as int) + 1 == flat(r as int, c as int + 1));
            }
        }
        proof {
            assert(flat(r as int, 8) == 8 * (r as int + 1));
        }
    }
}

/// Fills the board with a deterministic pattern in which neighboring cells
/// always differ, hence match-free.  Last resort when a bounded number of
/// random regenerations never produced a match-free board.
#[verifier::loop_isolation(false)]
pub fn fill_fallback(g: &mut Grid)
    requires
        grid_wf(old(g)@),
    ensures
        grid_wf(final(g)@),
        no_empty(final(g)@),
        crate::matching::match_free(final(g)@),
{
    for r in 0..8usize
        invariant
            grid_wf(g@),
            forall|rr: int, cc: int| #![trigger flat(rr, cc)]
                in_range(rr, cc) && rr < r ==> cell_at(g@, rr, cc) != Cell::Empty,
            forall|rr: int, cc: int|
                in_range(rr, cc) && rr < r ==> #[trigger] differs_backward(g@, rr, cc),
    {
        for c in 0..8usize
            invariant
                grid_wf(g@),
                forall|rr: int, cc: int| #![trigger flat(rr, cc)]
                    in_range(rr, cc) && (rr < r || (rr == r && cc < c)) ==>
                        cell_at(g@, rr, cc) != Cell::Empty,
                forall|rr: int, cc: int|
                    in_range(rr, cc) && (rr < r || (rr == r && cc < c)) ==>
                        #[trigger] differs_backward(g@, rr, cc),
        {
            let ghost g0 = g@;
            let left = if c > 0 { g.get(r, c - 1) } else { Cell::Empty };
            let up = if r > 0 { g.get(r - 1, c) } else { Cell::Empty };
            let v = if left != Cell::Red && up != Cell::Red {
                Cell::Red
            } else if left != Cell::Green && up != Cell::Green {
                Cell::Green
            } else {
                Cell::Blue
            };
            proof {
                assert(v != Cell::Empty && v != left && v != up);
            }
            g.set(r, c, v);
            proof {
                assert forall|rr: int, cc: int| #![trigger flat(rr, cc)]
                    in_range(rr, cc) && !(rr == r as int && cc == c as int)
                    implies flat(rr, cc) != flat(r as int, c as int) by {
                }
                assert forall|rr: int, cc: int|
                    in_range(rr, cc) && (rr < r as int || (rr == r as int && cc < c as int + 1))
                    implies #[trigger] differs_backward(g@, rr, cc) by {
                    if rr == r as int && cc == c as int {
                        assert(cell_at(g@, rr, cc) == v);
                        if cc > 0 {
                            assert(flat(rr, cc - 1) != flat(r as int, c as int));
                            assert(cell_at(g@, rr, cc - 1) == cell_at(g0, rr, cc - 1));
                            assert(cell_at(g0, rr, cc - 1) == left);
                        }
                        if rr > 0 {
                            assert(flat(rr - 1, cc) != flat(r as int, c as int));
                            assert(cell_at(g@, rr - 1, cc) == cell_at(g0, rr - 1, cc));
                            assert(cell_at(g0, rr - 1, cc) == up);
                        }
                    } else {
                        assert(differs_backward(g0, rr, cc));
                        assert(flat(rr, cc) != flat(r as int, c as int));
                        assert(cell_at(g@, rr, cc) == cell_at(g0, rr, cc));
                        if cc > 0 {
                            assert(flat(rr, cc - 1) != flat(r as int, c as int));
                            assert(cell_at(g@, rr, cc - 1) == cell_at(g0, rr, cc - 1));
                        }
                        if rr > 0 {
                            assert(flat(rr - 1, cc) != flat(r as int, c as int));
                            assert(cell_at(g@, rr - 1, cc) == cell_at(g0, rr - 1, cc));
                        }
                    }
                }
            }
        }
    }
    proof {
        crate::matching::lemma_distinct_neighbors_match_free(g@);
        assert forall|rr: int, cc: int| in_range(rr, cc)
            implies #[trigger] cell_at(g@, rr, cc) != Cell::Empty by {
            assert(flat(rr, cc) == rr * 8 + cc);
        }
    }
}

} // verus!

//! The session controller: selection state, turn sequencing, the defensive
//! per-tick settle, deadlock handling and win/loss determination.

use vstd::prelude::*;
use crate::grid::Cell;
use crate::matching::{match_free, matched};
use crate::engine::{sat_add, BoardEngine, ReshuffleOutcome, SwapOutcome};
use crate::refill::ColorSource;
use crate::swap::{adjacent, has_move, is_adjacent, swapped};

verus! {

/// Score at which a session is won, unless another target is configured.
pub const DEFAULT_TARGET_SCORE: u32 = 2000;

/// Display time of the pending-removal highlight, in milliseconds.
pub const PENDING_DISPLAY_MS: u32 = 300;

/// Grace period after which a tick re-runs the defensive settle, in
/// milliseconds.
pub const SETTLE_GRACE_MS: u32 = 500;

/// Number of board regenerations tried on a deadlock before the session
/// ends.
pub const RESHUFFLE_ATTEMPTS: u32 = 5;

/// One player-facing game session.
pub struct Session {
    engine: BoardEngine,
    target_score: u32,
    selected: Option<(usize, usize)>,
    pending: Vec<(usize, usize)>,
    timer_ms: u32,
    game_over: bool,
}

impl Session {
    /// The engine (board and score) of the session.
    pub closed spec fn engine_of(self) -> BoardEngine {
        self.engine
    }

    /// The score at which the session is won.
    pub closed spec fn target_of(self) -> int {
        self.target_score as int
    }

    /// The player's currently selected cell, if any.
    pub closed spec fn selected_of(self) -> Option<(usize, usize)> {
        self.selected
    }

    /// The most recent matched cells, retained for highlighting.
    pub closed spec fn pending_of(self) -> Seq<(usize, usize)> {
        self.pending@
    }

    /// Milliseconds accumulated since the last display reset.
    pub closed spec fn timer_of(self) -> int {
        self.timer_ms as int
    }

    /// Whether the session has ended.
    pub closed spec fn is_over(self) -> bool {
        self.game_over
    }

    /// A well-formed session: a well-formed engine, and any selection on
    /// the board.
    pub open spec fn wf(self) -> bool {
        &&& self.engine_of().wf()
        &&& (self.selected_of() matches Some(p) ==> p.0 < 8 && p.1 < 8)
    }

    /// Two sessions agree on everything but the selection.
    pub open spec fn same_board(a: Session, b: Session) -> bool {
        &&& a.engine_of().grid_of() == b.engine_of().grid_of()
        &&& a.engine_of().score_of() == b.engine_of().score_of()
        &&& a.engine_of().source_of() == b.engine_of().source_of()
        &&& a.pending_of() == b.pending_of()
        &&& a.timer_of() == b.timer_of()
        &&& a.is_over() == b.is_over()
        &&& a.target_of() == b.target_of()
    }

    /// Two sessions agree on everything.
    pub open spec fn same_state(a: Session, b: Session) -> bool {
        &&& Self::same_board(a, b)
        &&& a.selected_of() == b.selected_of()
    }

    /// A session on which a zero-length tick has nothing left to do: it is
    /// over, or its highlight is either gone or still within its display
    /// time, and either some display time still runs or the board is
    /// settled, movable and short of the target.
    pub open spec fn at_rest(s: Session) -> bool {
        s.is_over() || {
            &&& s.pending_of().len() == 0 || s.timer_of() < PENDING_DISPLAY_MS
            &&& s.pending_of().len() > 0 || s.timer_of() < SETTLE_GRACE_MS || {
                &&& match_free(s.engine_of().grid_of())
                &&& has_move(s.engine_of().grid_of())
                &&& s.engine_of().score_of() < s.target_of()
            }
        }
    }

    /// A session with the default winning target.
    pub fn new_session(source: ColorSource) -> (s: Session)
        requires
            source.wf(),
        ensures
            s.wf(),
            match_free(s.engine_of().grid_of()),
            s.engine_of().score_of() == 0,
            s.selected_of() is None,
            s.pending_of().len() == 0,
            !s.is_over(),
            s.timer_of() == 0,
            s.target_of() == DEFAULT_TARGET_SCORE,
    {
        Session::with_target(source, DEFAULT_TARGET_SCORE)
    }

    /// A session that is won at `target_score`.
    pub fn with_target(source: ColorSource, target_score: u32) -> (s: Session)
        requires
            source.wf(),
        ensures
            s.wf(),
            match_free(s.engine_of().grid_of()),
            s.engine_of().score_of() == 0,
            s.selected_of() is None,
            s.pending_of().len() == 0,
            !s.is_over(),
            s.timer_of() == 0,
            s.target_of() == target_score,
    {
        Session {
            engine: BoardEngine::new(source),
            target_score,
            selected: None,
            pending: Vec::new(),
            timer_ms: 0,
            game_over: false,
        }
    }

    /// A session wrapped around an existing engine, for headless drivers.
    pub fn from_engine(engine: BoardEngine, target_score: u32) -> (s: Session)
        requires
            engine.wf(),
        ensures
            s.wf(),
            s.engine_of() == engine,
            s.target_of() == target_score,
            s.selected_of() is None,
            s.pending_of().len() == 0,
            !s.is_over(),
            s.timer_of() == 0,
    {
        Session {
            engine,
            target_score,
            selected: None,
            pending: Vec::new(),
            timer_ms: 0,
            game_over: false,
        }
    }

    /// Handles a click on cell `(row, col)`.  Out-of-range clicks and
    /// clicks after the session ended are ignored.  The first click selects
    /// a cell; clicking it again deselects it; clicking a non-adjacent cell
    /// moves the selection; clicking an adjacent cell attempts the swap,
    /// which is undone when it makes no match and otherwise resolved fully,
    /// with the deadlock and win checks run afterwards.
    pub fn click(&mut self, row: usize, col: usize)
        requires
            old(self).wf(),
        ensures
            final(self).wf(),
            final(self).target_of() == old(self).target_of(),
            final(self).engine_of().score_of() >= old(self).engine_of().score_of(),
            (old(self).is_over() || row >= 8 || col >= 8) ==>
                Self::same_state(*final(self), *old(self)),
            !(old(self).is_over() || row >= 8 || col >= 8) ==> {
                let sel = old(self).selected_of();
                &&& (sel is None ==> Self::same_board(*final(self), *old(self))
                    && final(self).selected_of() == Some((row, col)))
                &&& (sel matches Some(p) ==> {
                    let after = swapped(
                        old(self).engine_of().grid_of(),
                        p.0 as int, p.1 as int, row as int, col as int);
                    &&& (p == (row, col) ==> final(self).selected_of() is None
                        && Self::same_board(*final(self), *old(self)))
                    &&& (p != (row, col)
                            && !adjacent(p.0 as int, p.1 as int, row as int, col as int)
                        ==> final(self).selected_of() == Some((row, col))
                            && Self::same_board(*final(self), *old(self)))
                    &&& (adjacent(p.0 as int, p.1 as int, row as int, col as int) ==> {
                        &&& final(self).selected_of() is None
                        &&& (match_free(after) ==> Self::same_board(*final(self), *old(self)))
                        &&& (!match_free(after) ==> {
                            &&& final(self).engine_of().score_of()
                                >= sat_add(old(self).engine_of().score_of(), 100)
                            &&& forall|r: usize, c: usize| r < 8 && c < 8 ==>
                                (#[trigger] final(self).pending_of().contains((r, c))
                                    == matched(after, r as int, c as int))
                            &&& final(self).is_over() || {
                                &&& match_free(final(self).engine_of().grid_of())
                                &&& has_move(final(self).engine_of().grid_of())
                                &&& final(self).engine_of().score_of() < final(self).target_of()
                            }
                        })
                    })
                })
            },
    {
        if self.game_over || row >= 8 || col >= 8 {
            return;
        }
        match self.selected {
            None => {
                self.selected = Some((row, col));
            }
            Some(sel) => {
                if sel.0 == row && sel.1 == col {
                    self.selected = None;
                } else if is_adjacent(sel, (row, col)) {
                    let (outcome, m) = self.engine.attempt_swap(sel, (row, col));
                    self.selected = None;
                    match outcome {
                        SwapOutcome::AcceptedMatched => {
                            self.pending = m;
                            self.timer_ms = 0;
                            self.resolve_board();
                        }
                        _ => {}
                    }
                } else {
                    self.selected = Some((row, col));
                }
            }
        }
    }

    /// Advances the session clock.  Clears an expired highlight, re-runs
    /// the defensive settle once the grace period has passed, and after any
    /// settle checks for deadlock and for the winning score.  A tick of
    /// zero milliseconds on a session at rest changes nothing.
    pub fn tick(&mut self, elapsed_ms: u32)
        requires
            old(self).wf(),
        ensures
            final(self).wf(),
            final(self).target_of() == old(self).target_of(),
            final(self).engine_of().score_of() >= old(self).engine_of().score_of(),
            final(self).selected_of() == old(self).selected_of(),
            Self::at_rest(*final(self)),
            old(self).is_over() ==> Self::same_state(*final(self), *old(self)),
            (Self::at_rest(*old(self)) && elapsed_ms == 0) ==>
                Self::same_state(*final(self), *old(self)),
            !old(self).is_over() ==> {
                let t1 = sat_add(old(self).timer_of(), elapsed_ms as int);
                // An expired highlight is cleared and the clock restarts;
                // nothing else happens on this tick.
                &&& (old(self).pending_of().len() > 0 && t1 >= PENDING_DISPLAY_MS ==> {
                    &&& final(self).pending_of().len() == 0
                    &&& final(self).timer_of() == 0
                    &&& final(self).engine_of().grid_of() == old(self).engine_of().grid_of()
                    &&& final(self).engine_of().score_of() == old(self).engine_of().score_of()
                    &&& final(self).engine_of().source_of() == old(self).engine_of().source_of()
                    &&& final(self).is_over() == old(self).is_over()
                })
                // A highlight still within its display time: only the clock
                // advances.
                &&& (old(self).pending_of().len() > 0 && t1 < PENDING_DISPLAY_MS ==> {
                    &&& final(self).pending_of() == old(self).pending_of()
                    &&& final(self).timer_of() == t1
                    &&& final(self).engine_of().grid_of() == old(self).engine_of().grid_of()
                    &&& final(self).engine_of().score_of() == old(self).engine_of().score_of()
                    &&& final(self).engine_of().source_of() == old(self).engine_of().source_of()
                    &&& final(self).is_over() == old(self).is_over()
                })
                // Within the settle grace period: only the clock advances.
                &&& (old(self).pending_of().len() == 0 && t1 < SETTLE_GRACE_MS ==> {
                    &&& final(self).pending_of() == old(self).pending_of()
                    &&& final(self).timer_of() == t1
                    &&& final(self).engine_of().grid_of() == old(self).engine_of().grid_of()
                    &&& final(self).engine_of().score_of() == old(self).engine_of().score_of()
                    &&& final(self).engine_of().source_of() == old(self).engine_of().source_of()
                    &&& final(self).is_over() == old(self).is_over()
                })
                // Grace period over: the defensive settle runs; the clock
                // keeps its advanced value unless a scoring pass reset it.
                &&& (old(self).pending_of().len() == 0 && t1 >= SETTLE_GRACE_MS ==> {
                    &&& final(self).pending_of() == old(self).pending_of()
                    &&& (final(self).timer_of() == t1
                        || (final(self).timer_of() == 0
                            && !match_free(old(self).engine_of().grid_of())))
                    &&& (!match_free(old(self).engine_of().grid_of()) ==>
                        final(self).engine_of().score_of()
                            >= sat_add(old(self).engine_of().score_of(), 100))
                })
            },
    {
        if self.game_over {
            return;
        }
        self.timer_ms = if self.timer_ms <= u32::MAX - elapsed_ms {
            self.timer_ms + elapsed_ms
        } else {
            u32::MAX
        };
        if self.pending.len() > 0 && self.timer_ms >= PENDING_DISPLAY_MS {
            self.pending = Vec::new();
            self.timer_ms = 0;
        }
        if self.pending.len() == 0 && self.timer_ms >= SETTLE_GRACE_MS {
            self.resolve_board();
        }
    }

    /// Restarts the session: fresh match-free board, zero score, no
    /// selection, not over.
    pub fn restart(&mut self)
        requires
            old(self).wf(),
        ensures
            final(self).wf(),
            final(self).target_of() == old(self).target_of(),
            final(self).engine_of().score_of() == 0,
            match_free(final(self).engine_of().grid_of()),
            final(self).selected_of() is None,
            final(self).pending_of().len() == 0,
            final(self).timer_of() == 0,
            !final(self).is_over(),
    {
        self.engine.restart();
        self.selected = None;
        self.pending = Vec::new();
        self.timer_ms = 0;
        self.game_over = false;
    }

    /// Settles the board and runs the deadlock and win checks.  Afterwards
    /// the session is over, or the board is match-free with a legal move
    /// and the score short of the target.  On an already settled board in
    /// that state nothing changes.
    fn resolve_board(&mut self)
        requires
            old(self).wf(),
            !old(self).is_over(),
        ensures
            final(self).wf(),
            final(self).target_of() == old(self).target_of(),
            final(self).engine_of().score_of() >= old(self).engine_of().score_of(),
            final(self).selected_of() == old(self).selected_of(),
            final(self).pending_of() == old(self).pending_of(),
            !match_free(old(self).engine_of().grid_of()) ==>
                final(self).engine_of().score_of()
                    >= sat_add(old(self).engine_of().score_of(), 100),
            final(self).is_over() || {
                &&& match_free(final(self).engine_of().grid_of())
                &&& has_move(final(self).engine_of().grid_of())
                &&& final(self).engine_of().score_of() < final(self).target_of()
            },
            (match_free(old(self).engine_of().grid_of())
                && has_move(old(self).engine_of().grid_of())
                && old(self).engine_of().score_of() < old(self).target_of())
                ==> Self::same_state(*final(self), *old(self)),
            final(self).timer_of() == old(self).timer_of()
                || (final(self).timer_of() == 0 && !match_free(old(self).engine_of().grid_of())),
    {
        let settled = self.engine.settle();
        match settled {
            Option::Some(passes) => {
                if passes > 0 {
                    self.timer_ms = 0;
                }
                if !self.engine.has_legal_move() {
                    match self.engine.reshuffle_or_end(RESHUFFLE_ATTEMPTS) {
                        ReshuffleOutcome::Ended => {
                            self.game_over = true;
                        }
                        ReshuffleOutcome::Reshuffled => {}
                    }
                }
                if self.engine.current_score() >= self.target_score {
                    self.game_over = true;
                }
            }
            Option::None => {
                // The pass cap was reached with matches still present; end
                // the session instead of looping further.
                self.game_over = true;
            }
        }
    }

    /// A row-major copy of the board, for presentation.
    pub fn grid_snapshot(&self) -> (v: Vec<Cell>)
        requires
            self.wf(),
        ensures
            v@ == self.engine_of().grid_of(),
    {
        self.engine.board().snapshot()
    }

    /// The accumulated score.
    pub fn current_score(&self) -> (s: u32)
        ensures
            s == self.engine_of().score_of(),
    {
        self.engine.current_score()
    }

    /// The score at which the session is won.
    pub fn target_score(&self) -> (t: u32)
        ensures
            t == self.target_of(),
    {
        self.target_score
    }

    /// The selected cell, if any.
    pub fn selected_cell(&self) -> (p: Option<(usize, usize)>)
        ensures
            p == self.selected_of(),
    {
        self.selected
    }

    /// Whether the session has ended.
    pub fn is_game_over(&self) -> (b: bool)
        ensures
            b == self.is_over(),
    {
        self.game_over
    }

    /// The most recent matched cells, retained for highlighting.
    pub fn pending_removal_cells(&self) -> (v: Vec<(usize, usize)>)
        ensures
            v@ == self.pending_of(),
    {
        let mut out: Vec<(usize, usize)> = Vec::new();
        let n = self.pending.len();
        let mut k: usize = 0;
        while k < n
            invariant
                n == self.pending_of().len(),
                k <= n,
                out@.len() == k,
                forall|k2: int| 0 <= k2 < k ==> out@[k2] == self.pending_of()[k2],
            decreases n - k,
        {
            out.push(self.pending[k]);
            k = k + 1;
        }
        proof {
            assert(out@ =~= self.pending_of());
        }
        out
    }
}

} // verus!

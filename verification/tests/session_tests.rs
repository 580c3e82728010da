use match3::{BoardEngine, Cell, ColorSource, Session};
use match3::matching::find_matches;

fn cell_of(ch: u8) -> Cell {
    match ch {
        b'R' => Cell::Red,
        b'G' => Cell::Green,
        b'B' => Cell::Blue,
        b'Y' => Cell::Yellow,
        b'P' => Cell::Purple,
        b'.' => Cell::Empty,
        _ => panic!("unknown cell letter"),
    }
}

fn board(rows: [&str; 8]) -> match3::Grid {
    let mut cells: Vec<Cell> = Vec::new();
    for row in rows.iter() {
        assert_eq!(row.len(), 8);
        for ch in row.bytes() {
            cells.push(cell_of(ch));
        }
    }
    match3::Grid::from_cells(cells)
}

/// The tiling with one red planted at (1, 1): match-free, and swapping
/// (0, 1) with (1, 1) makes the top row start R R R.
fn one_move_board() -> match3::Grid {
    board([
        "RGRGRGRG",
        "BRBYBYBY",
        "RGRGRGRG",
        "BYBYBYBY",
        "RGRGRGRG",
        "BYBYBYBY",
        "RGRGRGRG",
        "BYBYBYBY",
    ])
}

fn cycle(colors: &[Cell]) -> ColorSource {
    ColorSource::cycle(colors.to_vec())
}

/// A pattern whose cyclic refill always produces a match-free board with a
/// legal move, keeping deadlock handling deterministic.
fn movable_cycle() -> ColorSource {
    cycle(&[Cell::Red, Cell::Green, Cell::Red, Cell::Blue, Cell::Yellow, Cell::Purple,
            Cell::Green])
}

#[test]
fn new_session_starts_match_free_with_zero_score() {
    let s = Session::new_session(ColorSource::random_source());
    let cells = s.grid_snapshot();
    assert_eq!(cells.len(), 64);
    assert!(cells.iter().all(|c| *c != Cell::Empty));
    assert!(find_matches(&match3::Grid::from_cells(cells)).is_empty());
    assert_eq!(s.current_score(), 0);
    assert_eq!(s.target_score(), 2000);
    assert!(!s.is_game_over());
    assert_eq!(s.selected_cell(), None);
    assert!(s.pending_removal_cells().is_empty());
}

#[test]
fn click_selects_and_reclick_deselects() {
    let e = BoardEngine::from_parts(one_move_board(), 0, movable_cycle());
    let before = one_move_board().snapshot();
    let mut s = Session::from_engine(e, 2000);
    s.click(2, 2);
    assert_eq!(s.selected_cell(), Some((2, 2)));
    s.click(2, 2);
    assert_eq!(s.selected_cell(), None);
    assert_eq!(s.grid_snapshot(), before);
    assert_eq!(s.current_score(), 0);
}

#[test]
fn click_on_non_adjacent_cell_moves_selection() {
    let e = BoardEngine::from_parts(one_move_board(), 0, movable_cycle());
    let before = one_move_board().snapshot();
    let mut s = Session::from_engine(e, 2000);
    s.click(2, 2);
    s.click(5, 5);
    assert_eq!(s.selected_cell(), Some((5, 5)));
    assert_eq!(s.grid_snapshot(), before);
}

#[test]
fn click_out_of_range_is_ignored() {
    let e = BoardEngine::from_parts(one_move_board(), 0, movable_cycle());
    let mut s = Session::from_engine(e, 2000);
    s.click(8, 0);
    s.click(0, 8);
    assert_eq!(s.selected_cell(), None);
    assert_eq!(s.current_score(), 0);
}

#[test]
fn adjacent_click_without_match_reverts_the_swap() {
    let e = BoardEngine::from_parts(one_move_board(), 0, movable_cycle());
    let before = one_move_board().snapshot();
    let mut s = Session::from_engine(e, 2000);
    s.click(4, 4);
    s.click(4, 5);
    assert_eq!(s.selected_cell(), None);
    assert_eq!(s.grid_snapshot(), before);
    assert_eq!(s.current_score(), 0);
    assert!(!s.is_game_over());
}

#[test]
fn adjacent_click_with_match_scores_and_settles() {
    // The refill colors G, B, Y recreate no run, so exactly one pass runs.
    let e = BoardEngine::from_parts(
        one_move_board(), 0, cycle(&[Cell::Green, Cell::Blue, Cell::Yellow]));
    let mut s = Session::from_engine(e, 2000);
    s.click(0, 1);
    s.click(1, 1);
    assert_eq!(s.selected_cell(), None);
    assert_eq!(s.current_score(), 100);
    assert_eq!(s.pending_removal_cells(), vec![(0, 0), (0, 1), (0, 2)]);
    assert!(!s.is_game_over());
    assert!(find_matches(&match3::Grid::from_cells(s.grid_snapshot())).is_empty());
}

#[test]
fn reaching_the_target_ends_the_session_and_blocks_swaps() {
    let e = BoardEngine::from_parts(one_move_board(), 2500, movable_cycle());
    let before = one_move_board().snapshot();
    let mut s = Session::from_engine(e, 2000);
    assert!(!s.is_game_over());
    s.tick(600);
    assert!(s.is_game_over());
    // Swap attempts are now no-ops, even on the one legal move.
    s.click(0, 1);
    s.click(1, 1);
    assert_eq!(s.selected_cell(), None);
    assert_eq!(s.grid_snapshot(), before);
    assert_eq!(s.current_score(), 2500);
}

#[test]
fn restart_clears_game_over_and_resets_score() {
    let e = BoardEngine::from_parts(one_move_board(), 2500, movable_cycle());
    let mut s = Session::from_engine(e, 2000);
    s.tick(600);
    assert!(s.is_game_over());
    s.restart();
    assert!(!s.is_game_over());
    assert_eq!(s.current_score(), 0);
    assert_eq!(s.selected_cell(), None);
    assert!(s.pending_removal_cells().is_empty());
    assert!(find_matches(&match3::Grid::from_cells(s.grid_snapshot())).is_empty());
}

#[test]
fn tick_zero_on_a_settled_session_changes_nothing() {
    let e = BoardEngine::from_parts(one_move_board(), 0, movable_cycle());
    let mut s = Session::from_engine(e, 2000);
    s.tick(600);
    let snap = s.grid_snapshot();
    let score = s.current_score();
    let over = s.is_game_over();
    s.tick(0);
    assert_eq!(s.grid_snapshot(), snap);
    assert_eq!(s.current_score(), score);
    assert_eq!(s.is_game_over(), over);
}

#[test]
fn tick_clears_expired_highlight() {
    let e = BoardEngine::from_parts(one_move_board(), 0, movable_cycle());
    let mut s = Session::from_engine(e, 2000);
    s.click(0, 1);
    s.click(1, 1);
    assert!(!s.pending_removal_cells().is_empty());
    s.tick(350);
    assert!(s.pending_removal_cells().is_empty());
}

#[test]
fn defensive_tick_settles_a_board_left_with_matches() {
    // A board handed in mid-transition: the tick's consistency pass clears
    // the run and scores it.
    let g = board([
        "RRRGBYPR",
        "BYBYBYBY",
        "GPGPGPGP",
        "BYBYBYBY",
        "GPGPGPGP",
        "BYBYBYBY",
        "GPGPGPGP",
        "BYBYBYBY",
    ]);
    let e = BoardEngine::from_parts(g, 0, cycle(&[Cell::Green, Cell::Blue, Cell::Green]));
    let mut s = Session::from_engine(e, 2000);
    s.tick(600);
    assert_eq!(s.current_score(), 100);
    assert!(find_matches(&match3::Grid::from_cells(s.grid_snapshot())).is_empty());
}

#[test]
fn tick_within_grace_period_does_not_settle() {
    let g = board([
        "RRRGBYPR",
        "BYBYBYBY",
        "GPGPGPGP",
        "BYBYBYBY",
        "GPGPGPGP",
        "BYBYBYBY",
        "GPGPGPGP",
        "BYBYBYBY",
    ]);
    let before = g.snapshot();
    let e = BoardEngine::from_parts(g, 0, cycle(&[Cell::Green, Cell::Blue, Cell::Green]));
    let mut s = Session::from_engine(e, 2000);
    s.tick(100);
    assert_eq!(s.current_score(), 0);
    assert_eq!(s.grid_snapshot(), before);
}

#[test]
fn deadlock_without_usable_reshuffle_ends_the_session() {
    // A cycle of five distinct colors regenerates boards in which any
    // three cells of a line hold three different colors, so no swap can
    // ever line up a run: every reshuffle attempt is move-free and the
    // session ends.
    let g = board([
        "RGRGRGRG",
        "BYBYBYBY",
        "RGRGRGRG",
        "BYBYBYBY",
        "RGRGRGRG",
        "BYBYBYBY",
        "RGRGRGRG",
        "BYBYBYBY",
    ]);
    let e = BoardEngine::from_parts(
        g, 0, cycle(&[Cell::Red, Cell::Green, Cell::Blue, Cell::Yellow, Cell::Purple]));
    let mut s = Session::from_engine(e, 2000);
    s.tick(600);
    assert!(s.is_game_over());
    assert_eq!(s.current_score(), 0);
}

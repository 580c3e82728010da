use match3::{BoardEngine, Cell, ColorSource, Grid};
use match3::collapse::collapse;
use match3::matching::find_matches;
use match3::refill::fill_empty;

fn cell_of(ch: u8) -> Cell {
    match ch {
        b'R' => Cell::Red,
        b'G' => Cell::Green,
        b'B' => Cell::Blue,
        b'Y' => Cell::Yellow,
        b'P' => Cell::Purple,
        b'.' => Cell::Empty,
        _ => panic!("unknown cell letter"),
    }
}

fn board(rows: [&str; 8]) -> Grid {
    let mut cells: Vec<Cell> = Vec::new();
    for row in rows.iter() {
        assert_eq!(row.len(), 8);
        for ch in row.bytes() {
            cells.push(cell_of(ch));
        }
    }
    Grid::from_cells(cells)
}

/// A 2x2 four-color tiling: match-free, and no single swap makes a match.
fn deadlocked_board() -> Grid {
    board([
        "RGRGRGRG",
        "BYBYBYBY",
        "RGRGRGRG",
        "BYBYBYBY",
        "RGRGRGRG",
        "BYBYBYBY",
        "RGRGRGRG",
        "BYBYBYBY",
    ])
}

/// The tiling with one red planted at (1, 1): still match-free, but
/// swapping (0, 1) with (1, 1) makes the top row start R R R.
fn one_move_board() -> Grid {
    board([
        "RGRGRGRG",
        "BRBYBYBY",
        "RGRGRGRG",
        "BYBYBYBY",
        "RGRGRGRG",
        "BYBYBYBY",
        "RGRGRGRG",
        "BYBYBYBY",
    ])
}

/// Row 0 holds a run of three reds followed by distinct fillers; the other
/// rows are a non-matching tiling.
fn top_row_run_board() -> Grid {
    board([
        "RRRGBYPR",
        "BYBYBYBY",
        "GPGPGPGP",
        "BYBYBYBY",
        "GPGPGPGP",
        "BYBYBYBY",
        "GPGPGPGP",
        "BYBYBYBY",
    ])
}

fn cycle(colors: &[Cell]) -> ColorSource {
    ColorSource::cycle(colors.to_vec())
}

#[test]
fn find_matches_horizontal_run() {
    let g = top_row_run_board();
    let m = find_matches(&g);
    assert_eq!(m, vec![(0, 0), (0, 1), (0, 2)]);
}

#[test]
fn find_matches_vertical_run() {
    let mut g = deadlocked_board();
    g.set(3, 2, Cell::Purple);
    g.set(4, 2, Cell::Purple);
    g.set(5, 2, Cell::Purple);
    let m = find_matches(&g);
    assert_eq!(m, vec![(3, 2), (4, 2), (5, 2)]);
}

#[test]
fn find_matches_overlapping_runs_counted_once() {
    let g = board([
        "RRRGBYPG",
        "RYBYBYBY",
        "RPGPGPGP",
        "BYBYBYBY",
        "GPGPGPGP",
        "BYBYBYBY",
        "GPGPGPGP",
        "BYBYBYBY",
    ]);
    let m = find_matches(&g);
    assert_eq!(m, vec![(0, 0), (0, 1), (0, 2), (1, 0), (2, 0)]);
}

#[test]
fn find_matches_empty_run_does_not_count() {
    let g = board([
        "...GBYPR",
        "BYBYBYBY",
        "GPGPGPGP",
        "BYBYBYBY",
        "GPGPGPGP",
        "BYBYBYBY",
        "GPGPGPGP",
        "BYBYBYBY",
    ]);
    assert!(find_matches(&g).is_empty());
}

#[test]
fn find_matches_clean_board_is_empty() {
    assert!(find_matches(&deadlocked_board()).is_empty());
    assert!(find_matches(&one_move_board()).is_empty());
}

#[test]
fn collapse_compacts_column_preserving_order() {
    let mut g = board([
        ".GRGRGRG",
        "RYBYBYBY",
        ".GRGRGRG",
        "GYBYBYBY",
        ".GRGRGRG",
        "BYBYBYBY",
        ".GRGRGRG",
        "YYBYBYBY",
    ]);
    let moves = collapse(&mut g);
    // Column 0 held R, G, B, Y at rows 1, 3, 5, 7; they sink to rows 4..8.
    for i in 0..4 {
        assert_eq!(g.get(i, 0), Cell::Empty);
    }
    assert_eq!(g.get(4, 0), Cell::Red);
    assert_eq!(g.get(5, 0), Cell::Green);
    assert_eq!(g.get(6, 0), Cell::Blue);
    assert_eq!(g.get(7, 0), Cell::Yellow);
    // Other columns were full and stay as they were.
    for i in 0..8 {
        assert_eq!(g.get(i, 1), if i % 2 == 0 { Cell::Green } else { Cell::Yellow });
    }
    // Fall distances: row 1 falls 3, row 3 falls 2, row 5 falls 1, row 7 stays.
    assert!(moves.contains(&(1, 0, 3)));
    assert!(moves.contains(&(3, 0, 2)));
    assert!(moves.contains(&(5, 0, 1)));
    assert_eq!(moves.len(), 3);
}

#[test]
fn collapse_on_a_full_board_reports_nothing_and_changes_nothing() {
    let before = deadlocked_board().snapshot();
    let mut g = deadlocked_board();
    let moves = collapse(&mut g);
    assert!(moves.is_empty());
    assert_eq!(g.snapshot(), before);
}

#[test]
fn fill_all_assigns_pattern_colors_in_row_major_order() {
    let mut g = deadlocked_board();
    let mut src = cycle(&[Cell::Red, Cell::Green, Cell::Blue]);
    match3::refill::fill_all(&mut g, &mut src);
    // Cell (r, c) takes draw number 8 * r + c of the cycling pattern.
    assert_eq!(g.get(0, 0), Cell::Red);
    assert_eq!(g.get(0, 1), Cell::Green);
    assert_eq!(g.get(0, 2), Cell::Blue);
    assert_eq!(g.get(0, 3), Cell::Red);
    assert_eq!(g.get(1, 0), Cell::Blue);
    assert_eq!(g.get(7, 7), Cell::Red);
}

#[test]
fn fill_empty_fills_only_empties_in_order() {
    let mut g = board([
        ".G.GRGRG",
        "BYBYBYBY",
        "R.RGRGRG",
        "BYBYBYBY",
        "RGRGRGRG",
        "BYBYBYBY",
        "RGRGRGRG",
        "BYBYBYBY",
    ]);
    let mut src = cycle(&[Cell::Purple, Cell::Yellow, Cell::Blue]);
    fill_empty(&mut g, &mut src);
    assert_eq!(g.get(0, 0), Cell::Purple);
    assert_eq!(g.get(0, 2), Cell::Yellow);
    assert_eq!(g.get(2, 1), Cell::Blue);
    // Untouched cells keep their colors.
    assert_eq!(g.get(0, 1), Cell::Green);
    assert_eq!(g.get(2, 0), Cell::Red);
    assert_eq!(g.get(7, 7), Cell::Yellow);
}

#[test]
fn cycle_source_hands_out_pattern_cyclically() {
    let mut src = cycle(&[Cell::Red, Cell::Green]);
    assert_eq!(src.next_color(), Cell::Red);
    assert_eq!(src.next_color(), Cell::Green);
    assert_eq!(src.next_color(), Cell::Red);
    assert_eq!(src.next_color(), Cell::Green);
}

#[test]
fn settle_pass_scores_100_for_three() {
    let mut e = BoardEngine::from_parts(top_row_run_board(), 0, cycle(&[Cell::Green, Cell::Blue, Cell::Green]));
    assert!(e.settle_pass());
    assert_eq!(e.current_score(), 100);
    assert!(find_matches(e.board()).is_empty());
}

#[test]
fn settle_pass_scores_200_for_four() {
    let g = board([
        "RRRRGBYP",
        "BYBYBYBY",
        "GPGPGPGP",
        "BYBYBYBY",
        "GPGPGPGP",
        "BYBYBYBY",
        "GPGPGPGP",
        "BYBYBYBY",
    ]);
    let mut e = BoardEngine::from_parts(
        g, 0, cycle(&[Cell::Green, Cell::Blue, Cell::Green, Cell::Blue]));
    assert!(e.settle_pass());
    assert_eq!(e.current_score(), 200);
}

#[test]
fn settle_pass_scores_300_for_five_or_more() {
    let g = board([
        "RRRRRGBY",
        "BYBYBYBY",
        "GPGPGPGP",
        "BYBYBYBY",
        "GPGPGPGP",
        "BYBYBYBY",
        "GPGPGPGP",
        "BYBYBYBY",
    ]);
    let mut e = BoardEngine::from_parts(
        g, 0, cycle(&[Cell::Green, Cell::Blue, Cell::Green, Cell::Blue, Cell::Green]));
    assert!(e.settle_pass());
    assert_eq!(e.current_score(), 300);
}

#[test]
fn settle_pass_scores_two_simultaneous_runs_by_total_cell_count() {
    // A horizontal and a vertical run of three sharing one corner: five
    // marked cells in one pass score as a single >= 5 event.
    let g = board([
        "RRRGBYPG",
        "RYBYBYBY",
        "RPGPGPGP",
        "BYBYBYBY",
        "GPGPGPGP",
        "BYBYBYBY",
        "GPGPGPGP",
        "BYBYBYBY",
    ]);
    let mut e = BoardEngine::from_parts(
        g, 0, cycle(&[Cell::Green, Cell::Blue, Cell::Yellow, Cell::Purple, Cell::Green]));
    assert!(e.settle_pass());
    assert_eq!(e.current_score(), 300);
}

#[test]
fn settle_pass_without_match_reports_no_progress() {
    let before = deadlocked_board().snapshot();
    let mut e = BoardEngine::from_parts(deadlocked_board(), 7, cycle(&[Cell::Red]));
    assert!(!e.settle_pass());
    assert_eq!(e.current_score(), 7);
    assert_eq!(e.board().snapshot(), before);
}

#[test]
fn settle_leaves_board_match_free_and_score_monotone() {
    let mut e = BoardEngine::from_parts(top_row_run_board(), 0, cycle(&[Cell::Green, Cell::Blue, Cell::Green]));
    let passes = e.settle();
    assert_eq!(passes, Some(1));
    assert!(find_matches(e.board()).is_empty());
    assert_eq!(e.current_score(), 100);
}

#[test]
fn settle_twice_second_call_is_a_no_op() {
    let mut e = BoardEngine::from_parts(top_row_run_board(), 0, cycle(&[Cell::Green, Cell::Blue, Cell::Green]));
    assert_eq!(e.settle(), Some(1));
    let snap = e.board().snapshot();
    let score = e.current_score();
    assert_eq!(e.settle(), Some(0));
    assert_eq!(e.board().snapshot(), snap);
    assert_eq!(e.current_score(), score);
}

#[test]
fn settle_cascades_until_stable() {
    // The refill colors recreate the run once, then break it: two passes.
    let mut e = BoardEngine::from_parts(
        top_row_run_board(), 0,
        cycle(&[Cell::Red, Cell::Red, Cell::Red, Cell::Green, Cell::Blue, Cell::Yellow]));
    assert_eq!(e.settle(), Some(2));
    assert_eq!(e.current_score(), 200);
    assert!(find_matches(e.board()).is_empty());
}

#[test]
fn score_saturates_at_the_counter_maximum() {
    let mut e = BoardEngine::from_parts(
        top_row_run_board(), u32::MAX - 50,
        cycle(&[Cell::Green, Cell::Blue, Cell::Green]));
    assert!(e.settle_pass());
    assert_eq!(e.current_score(), u32::MAX);
}

#[test]
fn attempt_swap_rejects_same_cell_and_diagonal() {
    let before = deadlocked_board().snapshot();
    let mut e = BoardEngine::from_parts(deadlocked_board(), 0, cycle(&[Cell::Red]));
    let (o1, m1) = e.attempt_swap((0, 0), (0, 0));
    assert_eq!(o1, match3::SwapOutcome::RejectedNotAdjacent);
    assert!(m1.is_empty());
    let (o2, _) = e.attempt_swap((0, 0), (1, 1));
    assert_eq!(o2, match3::SwapOutcome::RejectedNotAdjacent);
    let (o3, _) = e.attempt_swap((2, 2), (4, 2));
    assert_eq!(o3, match3::SwapOutcome::RejectedNotAdjacent);
    assert_eq!(e.board().snapshot(), before);
    assert_eq!(e.current_score(), 0);
}

#[test]
fn attempt_swap_without_match_restores_board_exactly() {
    let before = deadlocked_board().snapshot();
    let mut e = BoardEngine::from_parts(deadlocked_board(), 0, cycle(&[Cell::Red]));
    let (o, m) = e.attempt_swap((0, 0), (0, 1));
    assert_eq!(o, match3::SwapOutcome::AcceptedNoMatch);
    assert!(m.is_empty());
    assert_eq!(e.board().snapshot(), before);
    // Attempting the same swap again leaves it equal as well.
    let (o2, _) = e.attempt_swap((0, 0), (0, 1));
    assert_eq!(o2, match3::SwapOutcome::AcceptedNoMatch);
    assert_eq!(e.board().snapshot(), before);
    assert_eq!(e.current_score(), 0);
}

#[test]
fn attempt_swap_with_match_keeps_swap_and_reports_cells() {
    let mut e = BoardEngine::from_parts(one_move_board(), 0, cycle(&[Cell::Red]));
    let (o, m) = e.attempt_swap((0, 1), (1, 1));
    assert_eq!(o, match3::SwapOutcome::AcceptedMatched);
    assert_eq!(m, vec![(0, 0), (0, 1), (0, 2)]);
    assert_eq!(e.board().get(0, 1), Cell::Red);
    assert_eq!(e.board().get(1, 1), Cell::Green);
}

#[test]
fn has_legal_move_detects_deadlock_and_moves() {
    let dead = BoardEngine::from_parts(deadlocked_board(), 0, cycle(&[Cell::Red]));
    assert!(!dead.has_legal_move());
    let live = BoardEngine::from_parts(one_move_board(), 0, cycle(&[Cell::Red]));
    assert!(live.has_legal_move());
}

#[test]
fn initialize_with_random_source_is_match_free_and_full() {
    let e = BoardEngine::new(ColorSource::random_source());
    assert!(find_matches(e.board()).is_empty());
    assert_eq!(e.current_score(), 0);
    let cells = e.board().snapshot();
    assert_eq!(cells.len(), 64);
    assert!(cells.iter().all(|c| *c != Cell::Empty));
}

#[test]
fn random_boards_differ() {
    let a = BoardEngine::new(ColorSource::random_source());
    let b = BoardEngine::new(ColorSource::random_source());
    assert_ne!(a.board().snapshot(), b.board().snapshot());
}

#[test]
fn initialize_falls_back_to_a_match_free_board_on_a_hopeless_source() {
    // A single-color source can never fill a match-free board at random;
    // the deterministic fallback must still deliver one.
    let e = BoardEngine::new(cycle(&[Cell::Red]));
    assert!(find_matches(e.board()).is_empty());
    let cells = e.board().snapshot();
    assert!(cells.iter().all(|c| *c != Cell::Empty));
}

#[test]
fn reshuffle_or_end_finds_a_movable_board() {
    // A cycling pattern of length seven regenerates a fixed board in which
    // every row and column steps through the pattern, so neighbors always
    // differ (match-free) while swapping (1, 0) with (1, 1) lines up three
    // reds in column 0: the reshuffle succeeds.
    let mut e = BoardEngine::from_parts(
        deadlocked_board(), 42,
        cycle(&[Cell::Red, Cell::Green, Cell::Red, Cell::Blue, Cell::Yellow, Cell::Purple,
                Cell::Green]));
    assert!(!e.has_legal_move());
    let o = e.reshuffle_or_end(5);
    assert_eq!(o, match3::ReshuffleOutcome::Reshuffled);
    assert!(e.has_legal_move());
    assert!(find_matches(e.board()).is_empty());
    assert_eq!(e.current_score(), 42);
}

use chessboard::board::{Board, ChessError, Coord, Occupancy, PieceKind, SquareState, Team};
use chessboard::game::Game;
use chessboard::moves::destinations;

fn c(col: u8, row: u8) -> Coord {
    Coord { col, row }
}

fn has(v: &[Coord], col: u8, row: u8) -> bool {
    v.iter().any(|q| q.col == col && q.row == row)
}

fn empty_square() -> SquareState {
    SquareState { occupancy: Occupancy::Empty, highlighted: false }
}

fn piece_square(kind: PieceKind, team: Team, id: u64) -> SquareState {
    SquareState { occupancy: Occupancy::Occupied { kind, team, id }, highlighted: false }
}

fn empty_board() -> Board {
    let mut b = Board::starting();
    for col in 0..8u8 {
        for row in 0..8u8 {
            b.set(c(col, row), empty_square()).unwrap();
        }
    }
    b
}

fn snapshot(b: &Board) -> Vec<SquareState> {
    let mut v = Vec::new();
    for row in 0..8u8 {
        for col in 0..8u8 {
            v.push(b.get(c(col, row)).unwrap());
        }
    }
    v
}

#[test]
fn starting_layout_matches_standard_arrangement() {
    let b = Board::starting();
    let back = [
        PieceKind::Rook,
        PieceKind::Knight,
        PieceKind::Bishop,
        PieceKind::Queen,
        PieceKind::King,
        PieceKind::Bishop,
        PieceKind::Knight,
        PieceKind::Rook,
    ];
    for col in 0..8u8 {
        for row in 0..8u8 {
            let sq = b.get(c(col, row)).unwrap();
            assert!(!sq.highlighted);
            match (row, sq.occupancy) {
                (0, Occupancy::Occupied { kind, team, .. }) => {
                    assert_eq!(kind, back[col as usize]);
                    assert_eq!(team, Team::White);
                }
                (1, Occupancy::Occupied { kind, team, .. }) => {
                    assert_eq!(kind, PieceKind::Pawn);
                    assert_eq!(team, Team::White);
                }
                (6, Occupancy::Occupied { kind, team, .. }) => {
                    assert_eq!(kind, PieceKind::Pawn);
                    assert_eq!(team, Team::Black);
                }
                (7, Occupancy::Occupied { kind, team, .. }) => {
                    assert_eq!(kind, back[col as usize]);
                    assert_eq!(team, Team::Black);
                }
                (2..=5, Occupancy::Empty) => {}
                _ => panic!("square ({}, {}) has the wrong state", col, row),
            }
        }
    }
}

#[test]
fn rook_on_empty_board_reaches_row_and_column() {
    let mut b = empty_board();
    b.set(c(3, 4), piece_square(PieceKind::Rook, Team::White, 1)).unwrap();
    let dests = destinations(&b, c(3, 4), PieceKind::Rook, Team::White);
    assert_eq!(dests.len(), 14);
    for col in 0..8u8 {
        for row in 0..8u8 {
            let expected = (col == 3 || row == 4) && !(col == 3 && row == 4);
            assert_eq!(has(&dests, col, row), expected, "square ({}, {})", col, row);
        }
    }
}

#[test]
fn bishop_on_empty_board_reaches_diagonals() {
    let mut b = empty_board();
    b.set(c(3, 4), piece_square(PieceKind::Bishop, Team::Black, 1)).unwrap();
    let dests = destinations(&b, c(3, 4), PieceKind::Bishop, Team::Black);
    for col in 0..8i16 {
        for row in 0..8i16 {
            let expected = (col - 3).abs() == (row - 4).abs() && !(col == 3 && row == 4);
            assert_eq!(has(&dests, col as u8, row as u8), expected, "square ({}, {})", col, row);
        }
    }
}

#[test]
fn queen_on_empty_board_reaches_union() {
    let mut b = empty_board();
    b.set(c(3, 3), piece_square(PieceKind::Queen, Team::White, 1)).unwrap();
    let dests = destinations(&b, c(3, 3), PieceKind::Queen, Team::White);
    assert_eq!(dests.len(), 27);
}

#[test]
fn knight_in_center_has_eight_moves() {
    let mut b = empty_board();
    b.set(c(3, 3), piece_square(PieceKind::Knight, Team::White, 1)).unwrap();
    let dests = destinations(&b, c(3, 3), PieceKind::Knight, Team::White);
    assert_eq!(dests.len(), 8);
    for (col, row) in [(4, 5), (5, 4), (5, 2), (4, 1), (2, 1), (1, 2), (1, 4), (2, 5)] {
        assert!(has(&dests, col, row), "missing ({}, {})", col, row);
    }
}

#[test]
fn knight_in_corner_has_two_moves() {
    let mut b = empty_board();
    b.set(c(0, 0), piece_square(PieceKind::Knight, Team::Black, 1)).unwrap();
    let dests = destinations(&b, c(0, 0), PieceKind::Knight, Team::Black);
    assert_eq!(dests.len(), 2);
    assert!(has(&dests, 1, 2));
    assert!(has(&dests, 2, 1));
}

#[test]
fn king_in_center_has_eight_moves() {
    let mut b = empty_board();
    b.set(c(3, 3), piece_square(PieceKind::King, Team::White, 1)).unwrap();
    let dests = destinations(&b, c(3, 3), PieceKind::King, Team::White);
    assert_eq!(dests.len(), 8);
}

#[test]
fn king_on_starting_board_is_boxed_in() {
    let b = Board::starting();
    let dests = destinations(&b, c(4, 0), PieceKind::King, Team::White);
    assert_eq!(dests.len(), 0);
}

#[test]
fn same_team_blocker_cuts_ray_at_its_square() {
    let mut b = empty_board();
    b.set(c(0, 0), piece_square(PieceKind::Rook, Team::White, 1)).unwrap();
    b.set(c(0, 3), piece_square(PieceKind::Pawn, Team::White, 2)).unwrap();
    let dests = destinations(&b, c(0, 0), PieceKind::Rook, Team::White);
    assert!(has(&dests, 0, 1));
    assert!(has(&dests, 0, 2));
    assert!(!has(&dests, 0, 3));
    assert!(!has(&dests, 0, 4));
    assert!(!has(&dests, 0, 7));
}

#[test]
fn opposing_blocker_is_a_capture_and_cuts_beyond() {
    let mut b = empty_board();
    b.set(c(0, 0), piece_square(PieceKind::Rook, Team::White, 1)).unwrap();
    b.set(c(0, 3), piece_square(PieceKind::Pawn, Team::Black, 2)).unwrap();
    let dests = destinations(&b, c(0, 0), PieceKind::Rook, Team::White);
    assert!(has(&dests, 0, 1));
    assert!(has(&dests, 0, 2));
    assert!(has(&dests, 0, 3));
    assert!(!has(&dests, 0, 4));
    assert!(!has(&dests, 0, 7));
}

#[test]
fn pawn_moves_forward_onto_empty_square_only() {
    let b = Board::starting();
    let dests = destinations(&b, c(4, 1), PieceKind::Pawn, Team::White);
    assert_eq!(dests.len(), 1);
    assert!(has(&dests, 4, 2));
}

#[test]
fn pawn_forward_square_occupied_blocks_the_move() {
    let mut b = Board::starting();
    b.set(c(4, 2), piece_square(PieceKind::Knight, Team::Black, 99)).unwrap();
    let dests = destinations(&b, c(4, 1), PieceKind::Pawn, Team::White);
    assert!(!has(&dests, 4, 2));
    // the blocker sits diagonally capturable from (3, 1) instead
    let from_d3 = destinations(&b, c(3, 1), PieceKind::Pawn, Team::White);
    assert!(has(&from_d3, 4, 2));
    assert!(has(&from_d3, 3, 2));
}

#[test]
fn pawn_forward_blocked_by_own_team_too() {
    let mut b = Board::starting();
    b.set(c(4, 2), piece_square(PieceKind::Knight, Team::White, 99)).unwrap();
    let dests = destinations(&b, c(4, 1), PieceKind::Pawn, Team::White);
    assert_eq!(dests.len(), 0);
}

#[test]
fn pawn_diagonal_needs_an_opponent() {
    let mut b = Board::starting();
    // same-team piece on the diagonal: never a destination
    b.set(c(5, 2), piece_square(PieceKind::Knight, Team::White, 99)).unwrap();
    let dests = destinations(&b, c(4, 1), PieceKind::Pawn, Team::White);
    assert!(!has(&dests, 5, 2));
    assert!(!has(&dests, 3, 2));
    assert!(has(&dests, 4, 2));
}

#[test]
fn black_pawn_advances_toward_decreasing_rows() {
    let b = Board::starting();
    let dests = destinations(&b, c(4, 6), PieceKind::Pawn, Team::Black);
    assert_eq!(dests.len(), 1);
    assert!(has(&dests, 4, 5));
}

#[test]
fn commit_without_highlight_fails_and_preserves_board() {
    let mut b = Board::starting();
    let before = snapshot(&b);
    let r = b.commit(c(0, 0), c(0, 3));
    assert_eq!(r, Err(ChessError::IllegalDestination));
    assert_eq!(snapshot(&b), before);
}

#[test]
fn commit_to_origin_is_rejected() {
    let mut b = Board::starting();
    let dests = destinations(&b, c(1, 0), PieceKind::Knight, Team::White);
    b.apply(&dests);
    let before = snapshot(&b);
    let r = b.commit(c(1, 0), c(1, 0));
    assert_eq!(r, Err(ChessError::IllegalDestination));
    assert_eq!(snapshot(&b), before);
}

#[test]
fn rook_commit_scenario() {
    let mut b = Board::starting();
    // the pawn in front of the rook has moved away; an opposing piece
    // stands four squares up the file
    b.set(c(0, 1), empty_square()).unwrap();
    b.set(c(0, 4), piece_square(PieceKind::Pawn, Team::Black, 99)).unwrap();
    let dests = destinations(&b, c(0, 0), PieceKind::Rook, Team::White);
    for row in 1..5u8 {
        assert!(has(&dests, 0, row), "missing (0, {})", row);
    }
    assert!(!has(&dests, 0, 5));
    assert!(!has(&dests, 0, 0));
    b.apply(&dests);
    let r = b.commit(c(0, 0), c(0, 3)).unwrap();
    assert_eq!(r.piece_id, 0);
    assert_eq!(r.captured_id, None);
    assert_eq!(b.get(c(0, 0)).unwrap().occupancy, Occupancy::Empty);
    match b.get(c(0, 3)).unwrap().occupancy {
        Occupancy::Occupied { kind, team, id } => {
            assert_eq!(kind, PieceKind::Rook);
            assert_eq!(team, Team::White);
            assert_eq!(id, 0);
        }
        Occupancy::Empty => panic!("destination should hold the rook"),
    }
}

#[test]
fn rook_commit_capture_reports_captured_id() {
    let mut b = Board::starting();
    b.set(c(0, 1), empty_square()).unwrap();
    b.set(c(0, 4), piece_square(PieceKind::Pawn, Team::Black, 99)).unwrap();
    let dests = destinations(&b, c(0, 0), PieceKind::Rook, Team::White);
    b.apply(&dests);
    let r = b.commit(c(0, 0), c(0, 4)).unwrap();
    assert_eq!(r.piece_id, 0);
    assert_eq!(r.captured_id, Some(99));
    match b.get(c(0, 4)).unwrap().occupancy {
        Occupancy::Occupied { kind, team, .. } => {
            assert_eq!(kind, PieceKind::Rook);
            assert_eq!(team, Team::White);
        }
        Occupancy::Empty => panic!("destination should hold the rook"),
    }
}

#[test]
fn clear_all_twice_is_a_noop_the_second_time() {
    let mut b = Board::starting();
    let dests = destinations(&b, c(1, 0), PieceKind::Knight, Team::White);
    b.apply(&dests);
    let first = b.clear_all();
    assert_eq!(first.len(), 2);
    let before = snapshot(&b);
    let second = b.clear_all();
    assert_eq!(second.len(), 0);
    assert_eq!(snapshot(&b), before);
}

#[test]
fn get_out_of_bounds_is_an_error() {
    let b = Board::starting();
    assert_eq!(b.get(c(8, 0)), Err(ChessError::OutOfBounds));
    assert_eq!(b.get(c(0, 8)), Err(ChessError::OutOfBounds));
    assert!(b.get(c(7, 7)).is_ok());
}

#[test]
fn set_out_of_bounds_is_an_error() {
    let mut b = Board::starting();
    let before = snapshot(&b);
    assert_eq!(b.set(c(8, 8), empty_square()), Err(ChessError::OutOfBounds));
    assert_eq!(snapshot(&b), before);
}

#[test]
fn team_opposite_swaps_sides() {
    assert_eq!(Team::White.opposite(), Team::Black);
    assert_eq!(Team::Black.opposite(), Team::White);
}

#[test]
fn white_knight_selection_on_starting_board() {
    let mut g = Game::new();
    let upd = g.on_piece_selected(c(1, 0)).unwrap();
    assert!(g.has_selection());
    assert_eq!(upd.hidden.len(), 0);
    assert_eq!(upd.shown.len(), 2);
    assert!(has(&upd.shown, 0, 2));
    assert!(has(&upd.shown, 2, 2));
}

#[test]
fn selection_out_of_bounds_is_rejected() {
    let mut g = Game::new();
    assert!(matches!(g.on_piece_selected(c(9, 9)), Err(ChessError::OutOfBounds)));
    assert!(!g.has_selection());
}

#[test]
fn destination_without_selection_is_benign() {
    let mut g = Game::new();
    assert!(matches!(g.on_destination_chosen(c(0, 2)), Err(ChessError::NoActiveSelection)));
}

#[test]
fn reselection_clears_previous_highlights_first() {
    let mut g = Game::new();
    g.on_piece_selected(c(1, 0)).unwrap();
    let upd = g.on_piece_selected(c(6, 0)).unwrap();
    assert_eq!(upd.hidden.len(), 2);
    assert!(has(&upd.hidden, 0, 2));
    assert!(has(&upd.hidden, 2, 2));
    assert_eq!(upd.shown.len(), 2);
    assert!(has(&upd.shown, 5, 2));
    assert!(has(&upd.shown, 7, 2));
}

#[test]
fn selecting_an_empty_square_ends_the_gesture() {
    let mut g = Game::new();
    g.on_piece_selected(c(1, 0)).unwrap();
    let upd = g.on_piece_selected(c(4, 4)).unwrap();
    assert!(!g.has_selection());
    assert_eq!(upd.shown.len(), 0);
    assert_eq!(upd.hidden.len(), 2);
}

#[test]
fn deselection_is_idempotent() {
    let mut g = Game::new();
    g.on_piece_selected(c(1, 0)).unwrap();
    let first = g.on_deselected();
    assert_eq!(first.len(), 2);
    assert!(!g.has_selection());
    let second = g.on_deselected();
    assert_eq!(second.len(), 0);
}

#[test]
fn full_move_through_the_state_machine() {
    let mut g = Game::new();
    g.on_piece_selected(c(4, 1)).unwrap();
    let out = g.on_destination_chosen(c(4, 2)).unwrap();
    assert_eq!(out.destination, c(4, 2));
    assert_eq!(out.record.captured_id, None);
    assert_eq!(out.hidden.len(), 1);
    assert!(has(&out.hidden, 4, 2));
    assert!(!g.has_selection());
    assert_eq!(g.square(c(4, 1)).unwrap().occupancy, Occupancy::Empty);
    match g.square(c(4, 2)).unwrap().occupancy {
        Occupancy::Occupied { kind, team, .. } => {
            assert_eq!(kind, PieceKind::Pawn);
            assert_eq!(team, Team::White);
        }
        Occupancy::Empty => panic!("pawn should have moved"),
    }
}

#[test]
fn illegal_destination_through_the_state_machine() {
    let mut g = Game::new();
    g.on_piece_selected(c(1, 0)).unwrap();
    let r = g.on_destination_chosen(c(5, 5));
    assert!(matches!(r, Err(ChessError::IllegalDestination)));
    // the selection is still active and the board untouched
    assert!(g.has_selection());
    match g.square(c(1, 0)).unwrap().occupancy {
        Occupancy::Occupied { kind, .. } => assert_eq!(kind, PieceKind::Knight),
        Occupancy::Empty => panic!("knight should not have moved"),
    }
}

#[test]
fn moving_onto_the_selected_square_is_rejected() {
    let mut g = Game::new();
    g.on_piece_selected(c(1, 0)).unwrap();
    let r = g.on_destination_chosen(c(1, 0));
    assert!(matches!(r, Err(ChessError::IllegalDestination)));
}

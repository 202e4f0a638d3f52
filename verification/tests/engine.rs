use tafl::cells::{CellType, GameError, Phase, Side, SpecialCell, Variant, Winner};
use tafl::hnefatafl::GameState;

fn count_kind(st: &GameState, kind: CellType) -> usize {
    let mut n = 0;
    for row in &st.board {
        for cell in row {
            if cell.cell_type == kind {
                n += 1;
            }
        }
    }
    n
}

fn assert_fixtures(st: &GameState, n: usize) {
    let mid = (n - 1) / 2;
    for r in 0..n {
        for c in 0..n {
            let corner = (r == 0 || r == n - 1) && (c == 0 || c == n - 1);
            let throne = r == mid && c == mid;
            assert_eq!(st.board[r][c].is_corner, corner, "corner flag at {} {}", r, c);
            assert_eq!(st.board[r][c].is_throne, throne, "throne flag at {} {}", r, c);
        }
    }
}

#[test]
fn initial_boards() {
    let h = GameState::new(Variant::Hnefatafl, 12345678);
    assert_eq!(h.board.len(), 11);
    assert_eq!(count_kind(&h, CellType::King), 1);
    assert_eq!(count_kind(&h, CellType::Attacker), 24);
    assert_eq!(count_kind(&h, CellType::Defender), 12);
    assert_eq!(h.board[5][5].cell_type, CellType::King);
    assert!(h.board[5][5].is_throne);
    assert_fixtures(&h, 11);
    assert_eq!(h.current_turn, Side::Attacker);
    assert_eq!(h.click_phase, Phase::AwaitSource);
    assert_eq!(h.message, "Attacker's turn");
    assert!(!h.game_over);
    assert!(h.winner.is_none());

    let t = GameState::new(Variant::Tablut, 1);
    assert_eq!(t.board.len(), 9);
    assert_eq!(count_kind(&t, CellType::King), 1);
    assert_eq!(count_kind(&t, CellType::Attacker), 16);
    assert_eq!(count_kind(&t, CellType::Defender), 8);
    assert_eq!(t.board[4][4].cell_type, CellType::King);
    assert_fixtures(&t, 9);

    let b = GameState::new(Variant::Brandubh, 2);
    assert_eq!(b.board.len(), 7);
    assert_eq!(count_kind(&b, CellType::King), 1);
    assert_eq!(count_kind(&b, CellType::Attacker), 8);
    assert_eq!(count_kind(&b, CellType::Defender), 4);
    assert_eq!(b.board[3][3].cell_type, CellType::King);
    assert_fixtures(&b, 7);
}

#[test]
fn invalid_selection_on_empty_cell() {
    // A corner of a fresh Tablut board is empty: the click is rejected
    // and nothing changes.
    let mut t = GameState::new(Variant::Tablut, 7);
    let before = t.board.clone();
    let r = t.process_click(0, 0);
    assert_eq!(r, Err(GameError::NoPieceToMove));
    assert_eq!(t.message, "Select a piece to move.");
    assert_eq!(t.click_phase, Phase::AwaitSource);
    assert_eq!(t.board, before);
}

#[test]
fn deselect_restores_board() {
    // Selecting a piece and clicking it again deselects; the board is
    // byte-identical to what stood before the selection.
    let mut t = GameState::new(Variant::Tablut, 7);
    let before = t.board.clone();
    assert_eq!(t.process_click(0, 3), Ok(()));
    assert_eq!(t.click_phase, Phase::AwaitTarget);
    assert!(t.board[0][3].is_selected);
    assert_eq!(t.process_click(0, 3), Ok(()));
    assert_eq!(t.click_phase, Phase::AwaitSource);
    assert_eq!(t.board, before);
}

#[test]
fn selection_marks_exactly_the_legal_destinations() {
    let mut t = GameState::new(Variant::Tablut, 7);
    assert_eq!(t.process_click(0, 3), Ok(()));
    // The attacker on (0, 3) may slide left along the row and down the
    // column until the first piece; the corner stays off limits.
    assert!(t.board[0][2].is_possible_move);
    assert!(t.board[0][1].is_possible_move);
    assert!(!t.board[0][0].is_possible_move, "corner is no destination");
    assert!(t.board[1][3].is_possible_move);
    assert!(t.board[2][3].is_possible_move);
    assert!(!t.board[0][4].is_possible_move, "occupied");
    // Exactly one cell is selected.
    let mut selected = 0;
    for row in &t.board {
        for cell in row {
            if cell.is_selected {
                selected += 1;
            }
        }
    }
    assert_eq!(selected, 1);
}

#[test]
fn blocked_path_rejected() {
    // The attacker on (0, 3) of a fresh Hnefatafl board cannot jump the
    // defender on (5, 3).
    let mut h = GameState::new(Variant::Hnefatafl, 7);
    assert_eq!(h.process_click(0, 3), Ok(()));
    let r = h.process_click(7, 3);
    assert_eq!(r, Err(GameError::BlockedPath));
    assert_eq!(h.message, "The path is blocked.");
    assert_eq!(h.click_phase, Phase::AwaitSource);
    assert_eq!(h.current_turn, Side::Attacker, "no move was applied");

    // Clicking the occupied square itself is a different rejection.
    assert_eq!(h.process_click(0, 3), Ok(()));
    assert_eq!(h.process_click(5, 3), Err(GameError::OccupiedDestination));
    assert_eq!(h.message, "Select an empty cell to move to.");
}

#[test]
fn out_of_bounds_click() {
    let mut b = GameState::new(Variant::Brandubh, 7);
    assert_eq!(b.process_click(7, 0), Err(GameError::InvalidCoordinate));
    assert_eq!(b.message, "Invalid cell coordinates.");
}

#[test]
fn wrong_side_selection() {
    let mut t = GameState::new(Variant::Tablut, 7);
    // Attackers move first: a defender may not be selected.
    assert_eq!(
        t.process_click(2, 4),
        Err(GameError::NotYourPiece(Side::Attacker))
    );
    assert_eq!(t.message, "Cannot move the defender's piece.");
    // The king counts as a defender's piece.
    assert_eq!(
        t.process_click(4, 4),
        Err(GameError::NotYourPiece(Side::Attacker))
    );
}

#[test]
fn non_orthogonal_move_rejected() {
    let mut t = GameState::new(Variant::Tablut, 7);
    assert_eq!(
        t.make_move((0, 3), (1, 4)),
        Err(GameError::NonOrthogonalMove)
    );
}

#[test]
fn brandubh_simple_attacker_capture() {
    // Attackers work a second flanker to (4, 4); the arrival sandwiches
    // the defender on (4, 3) against the attacker on (4, 2).
    let mut b = GameState::new(Variant::Brandubh, 7);
    assert_eq!(b.make_move((3, 1), (4, 1)), Ok(()));
    assert_eq!(b.make_move((3, 2), (2, 2)), Ok(()));
    assert_eq!(b.make_move((4, 1), (4, 2)), Ok(()));
    assert_eq!(b.make_move((2, 2), (2, 1)), Ok(()));
    assert_eq!(b.make_move((3, 5), (4, 5)), Ok(()));
    assert_eq!(b.make_move((2, 1), (2, 2)), Ok(()));
    let defenders_before = count_kind(&b, CellType::Defender);
    let attackers_before = count_kind(&b, CellType::Attacker);
    assert_eq!(b.board[4][3].cell_type, CellType::Defender);
    assert_eq!(b.make_move((4, 5), (4, 4)), Ok(()));
    assert_eq!(b.board[4][3].cell_type, CellType::Empty, "captured");
    assert_eq!(count_kind(&b, CellType::Defender), defenders_before - 1);
    assert_eq!(count_kind(&b, CellType::Attacker), attackers_before);
    assert_eq!(count_kind(&b, CellType::King), 1);
    assert_eq!(b.current_turn, Side::Defender);
    assert!(!b.game_over);
    assert_fixtures(&b, 7);
}

#[test]
fn hnefatafl_king_escape() {
    // Defenders clear the fifth column, walk the king to (2, 5), across
    // to (2, 0) and up into the corner; attackers shuffle far away.
    let mut h = GameState::new(Variant::Hnefatafl, 7);
    assert_eq!(h.make_move((10, 3), (9, 3)), Ok(()));
    assert_eq!(h.make_move((3, 5), (3, 2)), Ok(()));
    assert_eq!(h.make_move((9, 3), (10, 3)), Ok(()));
    assert_eq!(h.make_move((4, 5), (3, 5)), Ok(()));
    assert_eq!(h.make_move((10, 3), (9, 3)), Ok(()));
    assert_eq!(h.make_move((3, 5), (3, 6)), Ok(()));
    assert_eq!(h.make_move((9, 3), (10, 3)), Ok(()));
    assert_eq!(h.make_move((5, 5), (2, 5)), Ok(()));
    assert_eq!(h.make_move((10, 3), (9, 3)), Ok(()));
    assert_eq!(h.make_move((2, 5), (2, 0)), Ok(()));
    assert_eq!(h.make_move((9, 3), (10, 3)), Ok(()));
    assert_eq!(h.make_move((2, 0), (0, 0)), Ok(()));
    assert!(h.game_over);
    assert_eq!(h.winner, Some(Winner::KingEscaped), "a defender win");
    assert!(h.message.contains("wins"));
    assert_eq!(h.board[0][0].cell_type, CellType::King);
}

#[test]
fn no_clicks_after_game_over() {
    // Any click after the game ended is rejected and the board stays
    // byte-identical.
    let mut h = GameState::new(Variant::Hnefatafl, 7);
    assert_eq!(h.make_move((10, 3), (9, 3)), Ok(()));
    assert_eq!(h.make_move((3, 5), (3, 2)), Ok(()));
    assert_eq!(h.make_move((9, 3), (10, 3)), Ok(()));
    assert_eq!(h.make_move((4, 5), (3, 5)), Ok(()));
    assert_eq!(h.make_move((10, 3), (9, 3)), Ok(()));
    assert_eq!(h.make_move((3, 5), (3, 6)), Ok(()));
    assert_eq!(h.make_move((9, 3), (10, 3)), Ok(()));
    assert_eq!(h.make_move((5, 5), (2, 5)), Ok(()));
    assert_eq!(h.make_move((10, 3), (9, 3)), Ok(()));
    assert_eq!(h.make_move((2, 5), (2, 0)), Ok(()));
    assert_eq!(h.make_move((9, 3), (10, 3)), Ok(()));
    assert_eq!(h.make_move((2, 0), (0, 0)), Ok(()));
    assert!(h.game_over);
    let frozen = h.board.clone();
    assert_eq!(h.process_click(0, 3), Err(GameError::GameOver));
    assert_eq!(h.board, frozen);
    assert_eq!(h.process_click(5, 5), Err(GameError::GameOver));
    assert_eq!(h.board, frozen);
    assert_eq!(h.make_move((0, 4), (0, 3)), Err(GameError::GameOver));
    assert_eq!(h.board, frozen);
}

#[test]
fn brandubh_king_capture() {
    // The king steps off the throne; attackers close the other three
    // sides, with the vacated throne counting as the fourth hostile side.
    let mut b = GameState::new(Variant::Brandubh, 7);
    assert_eq!(b.make_move((3, 1), (2, 1)), Ok(()));
    assert_eq!(b.make_move((2, 3), (2, 6)), Ok(()));
    assert_eq!(b.make_move((2, 1), (2, 2)), Ok(()));
    assert_eq!(b.make_move((3, 3), (2, 3)), Ok(()));
    assert!(!b.game_over, "three hostile sides are not yet a capture");
    assert_eq!(b.make_move((3, 5), (2, 5)), Ok(()));
    assert_eq!(b.make_move((3, 4), (4, 4)), Ok(()));
    assert_eq!(b.make_move((2, 5), (2, 4)), Ok(()));
    assert!(b.game_over);
    assert_eq!(b.winner, Some(Winner::Attackers));
    assert_eq!(b.message, "Attacker wins!");
    // The king is not removed from the board; the game simply ends.
    assert_eq!(count_kind(&b, CellType::King), 1);
    assert_eq!(b.board[2][3].cell_type, CellType::King);
}

#[test]
fn throne_is_forbidden_and_impassable() {
    // Clear the way, walk the king off the throne, and try to enter or
    // cross the vacated throne with an ordinary defender.
    let mut t = GameState::new(Variant::Tablut, 7);
    assert_eq!(t.make_move((0, 3), (2, 3)), Ok(()));
    assert_eq!(t.make_move((3, 4), (3, 7)), Ok(()));
    assert_eq!(t.make_move((8, 3), (7, 3)), Ok(()));
    assert_eq!(t.make_move((2, 4), (2, 8)), Ok(()));
    assert_eq!(t.make_move((7, 3), (8, 3)), Ok(()));
    assert_eq!(t.make_move((4, 4), (2, 4)), Ok(()));
    assert_eq!(t.make_move((8, 3), (7, 3)), Ok(()));
    assert_eq!(t.board[4][4].cell_type, CellType::Empty);
    assert!(t.board[4][4].is_throne);
    // Entering the empty throne is forbidden for a non-king.
    assert_eq!(
        t.make_move((4, 3), (4, 4)),
        Err(GameError::ForbiddenDestination(SpecialCell::Throne))
    );
    // Crossing it is blocked too.
    assert_eq!(t.make_move((4, 3), (4, 5)), Err(GameError::BlockedPath));
}

#[test]
fn corner_is_forbidden_for_ordinary_pieces() {
    let mut t = GameState::new(Variant::Tablut, 7);
    assert_eq!(t.process_click(0, 3), Ok(()));
    let r = t.process_click(0, 0);
    assert_eq!(
        r,
        Err(GameError::ForbiddenDestination(SpecialCell::Corner))
    );
    assert_eq!(t.message, "Cannot move to the corner.");
    assert_eq!(t.click_phase, Phase::AwaitSource);
}

#[test]
fn click_driven_move_updates_turn_and_message() {
    let mut t = GameState::new(Variant::Tablut, 7);
    assert_eq!(t.process_click(0, 3), Ok(()));
    assert_eq!(t.process_click(2, 3), Ok(()));
    assert!(t.move_done);
    assert_eq!(t.current_turn, Side::Defender);
    assert_eq!(t.message, "Defender's turn");
    assert_eq!(t.click_phase, Phase::AwaitSource);
    // All overlays are gone after a successful move.
    for row in &t.board {
        for cell in row {
            assert!(!cell.is_selected);
            assert!(!cell.is_possible_move);
        }
    }
    assert_eq!(t.board[2][3].cell_type, CellType::Attacker);
    assert_eq!(t.board[0][3].cell_type, CellType::Empty);
}

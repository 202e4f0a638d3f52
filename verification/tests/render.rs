use tafl::cells::{GameError, Side, SpecialCell, Variant};
use tafl::hnefatafl::GameState;
use tafl::render::{
    render_brandubh_board_as_html, render_hnefatafl_board_as_html, render_koch_board_as_html,
    render_tablut_board_as_html,
};

#[test]
fn brandubh_board_renders_as_a_table() {
    let b = GameState::new(Variant::Brandubh, 1);
    let html = render_brandubh_board_as_html(&b.board);
    assert!(html.starts_with("<table>"));
    assert!(html.ends_with("</table>"));
    // The top-left corner is an empty corner cell with its click hook.
    assert!(html.contains(
        "<td id=\"cell-0-0\" class=\"empty corner-cell\" onclick=\"handleCellClick(0, 0)\"></td>"
    ));
    // The king sits on the throne in the middle.
    assert!(html.contains(
        "<td id=\"cell-3-3\" class=\"king throne-cell\" onclick=\"handleCellClick(3, 3)\">\
         <img src=\"/images/queen.png\" alt=\"King\" class=\"piece\" /></td>"
    ));
    // Row labels count down from the board size; columns are lettered.
    assert!(html.contains("<td class=\"coordinates\" style=\"border: none;\">7</td>"));
    assert!(html.contains("<td class=\"coordinates\" style=\"border: none;\">1</td>"));
    assert!(html.contains("<td class=\"coordinates\" style=\"border: none;\">a</td>"));
    assert!(html.contains("<td class=\"coordinates\" style=\"border: none;\">g</td>"));
    assert!(!html.contains(">h</td>"));
}

#[test]
fn hnefatafl_render_shows_pieces() {
    let h = GameState::new(Variant::Hnefatafl, 1);
    let html = render_hnefatafl_board_as_html(&h.board);
    assert!(html.contains(
        "<td id=\"cell-0-3\" class=\"attacker\" onclick=\"handleCellClick(0, 3)\">\
         <img src=\"/images/attacker.png\" alt=\"Attacker\" class=\"piece\" /></td>"
    ));
    assert!(html.contains(
        "<td id=\"cell-4-4\" class=\"defender\" onclick=\"handleCellClick(4, 4)\">\
         <img src=\"/images/defender.png\" alt=\"Defender\" class=\"piece\" /></td>"
    ));
    assert!(html.contains("<td class=\"coordinates\" style=\"border: none;\">11</td>"));
    assert!(html.contains("<td class=\"coordinates\" style=\"border: none;\">k</td>"));
    // A fresh board shows no overlays.
    assert!(!html.contains("selected-cell"));
    assert!(!html.contains("possible-cell"));
}

#[test]
fn selection_appears_in_the_rendering() {
    let mut h = GameState::new(Variant::Hnefatafl, 1);
    assert_eq!(h.process_click(0, 3), Ok(()));
    let html = render_hnefatafl_board_as_html(&h.board);
    assert!(html.contains("class=\"attacker selected-cell\""));
    assert!(html.contains("possible-cell"));
    // Deselecting clears the overlay classes again.
    assert_eq!(h.process_click(0, 3), Ok(()));
    let html2 = render_hnefatafl_board_as_html(&h.board);
    assert!(!html2.contains("selected-cell"));
    assert!(!html2.contains("possible-cell"));
}

#[test]
fn tablut_and_koch_renders() {
    let t = GameState::new(Variant::Tablut, 1);
    let html = render_tablut_board_as_html(&t.board);
    assert!(html.contains("<td class=\"coordinates\" style=\"border: none;\">9</td>"));
    assert!(html.contains("cell-8-8"));

    let k = GameState::new(Variant::Hnefatafl, 1);
    let koch = render_koch_board_as_html(&k.board);
    assert_eq!(koch, render_hnefatafl_board_as_html(&k.board));
}

#[test]
fn error_messages_match_the_user_strings() {
    assert_eq!(GameError::InvalidCoordinate.message(), "Invalid cell coordinates.");
    assert_eq!(GameError::GameOver.message(), "Game is already over.");
    assert_eq!(GameError::NoPieceToMove.message(), "Select a piece to move.");
    assert_eq!(
        GameError::NotYourPiece(Side::Attacker).message(),
        "Cannot move the defender's piece."
    );
    assert_eq!(
        GameError::NotYourPiece(Side::Defender).message(),
        "Cannot move the attacker's piece."
    );
    assert_eq!(
        GameError::OccupiedDestination.message(),
        "Select an empty cell to move to."
    );
    assert_eq!(
        GameError::ForbiddenDestination(SpecialCell::Corner).message(),
        "Cannot move to the corner."
    );
    assert_eq!(
        GameError::ForbiddenDestination(SpecialCell::Throne).message(),
        "Cannot move to the throne."
    );
    assert_eq!(
        GameError::NonOrthogonalMove.message(),
        "Move must be along a single row or column."
    );
    assert_eq!(GameError::BlockedPath.message(), "The path is blocked.");
    assert_eq!(GameError::NotYourTurn.message(), "Not your turn");
    assert_eq!(GameError::UnknownMatch.message(), "Game not found or inactive");
    assert_eq!(
        GameError::MatchFull.message(),
        "Game is already full. Maximum of two players allowed."
    );
    assert_eq!(GameError::NoSession.message(), "Session ID not found");
}

#[test]
fn titles_follow_the_variant() {
    assert_eq!(GameState::new(Variant::Brandubh, 1).title, "Brandubh");
    assert_eq!(GameState::new(Variant::Tablut, 1).title, "Tablut");
    assert_eq!(GameState::new(Variant::Hnefatafl, 1).title, "Hnefatafl");
}

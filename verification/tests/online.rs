use tafl::cells::{GameError, Side, Variant};
use tafl::coordinator::{ClickOutcome, GameMode, GameVariant, Role};
use tafl::hnefatafl::GameState;
use tafl::registry::{Player, Registry};

fn online_hnefatafl(id: usize) -> GameVariant {
    GameVariant::Hnefatafl(
        GameState::new(Variant::Hnefatafl, id),
        GameState::new(Variant::Hnefatafl, id),
        GameMode::Online,
    )
}

fn turn_of(env: &GameVariant) -> Side {
    match env {
        GameVariant::Tablut(a, _, _) => a.current_turn,
        GameVariant::Hnefatafl(a, _, _) => a.current_turn,
        GameVariant::Brandubh(a, _, _) => a.current_turn,
    }
}

#[test]
fn online_turn_policing() {
    // Attackers move first: a click from the defender session is turned
    // away and the match does not advance.
    let mut env = online_hnefatafl(11111111);
    let outcome = env.apply_click(Role::Defender, 0, 3);
    assert!(matches!(outcome, ClickOutcome::NotYourTurn));
    assert_eq!(turn_of(&env), Side::Attacker);
}

#[test]
fn online_selection_overlay_stays_private() {
    // A selection click advances only the active player's rendering; the
    // board for everyone else carries no overlay.
    let mut env = online_hnefatafl(22222222);
    let outcome = env.apply_click(Role::Attacker, 0, 3);
    match outcome {
        ClickOutcome::ActiveOnly { board, others_board, .. } => {
            assert!(board[0][3].is_selected);
            assert!(board[2][3].is_possible_move);
            for row in &others_board {
                for cell in row {
                    assert!(!cell.is_selected);
                    assert!(!cell.is_possible_move);
                }
            }
            // The position itself is shared.
            for r in 0..11 {
                for c in 0..11 {
                    assert_eq!(board[r][c].cell_type, others_board[r][c].cell_type);
                }
            }
            // Rendered for the inactive role, no overlay class appears.
            let html = tafl::render::render_hnefatafl_board_as_html(&others_board);
            assert!(!html.contains("selected-cell"));
            assert!(!html.contains("possible-cell"));
        },
        _ => panic!("a selection click in an online match is projected per role"),
    }
}

#[test]
fn online_completed_move_broadcasts_to_all() {
    let mut env = online_hnefatafl(33333333);
    let _ = env.apply_click(Role::Attacker, 0, 3);
    let outcome = env.apply_click(Role::Attacker, 2, 3);
    match outcome {
        ClickOutcome::BroadcastAll { board, message } => {
            assert!(board[2][3].cell_type == tafl::cells::CellType::Attacker);
            assert_eq!(message, "Defender's turn");
        },
        _ => panic!("a completed move is broadcast to every subscriber"),
    }
    assert_eq!(turn_of(&env), Side::Defender);
}

#[test]
fn local_click_broadcasts_to_all() {
    let mut env = GameVariant::Tablut(
        GameState::new(Variant::Tablut, 1),
        GameState::new(Variant::Tablut, 1),
        GameMode::Local,
    );
    let outcome = env.apply_click(Role::Local, 0, 3);
    assert!(matches!(outcome, ClickOutcome::BroadcastAll { .. }));
}

#[test]
fn rejected_click_is_not_broadcast() {
    let mut env = online_hnefatafl(44444444);
    let outcome = env.apply_click(Role::Attacker, 0, 0);
    match outcome {
        ClickOutcome::Rejected { error, message, .. } => {
            assert_eq!(error, GameError::NoPieceToMove);
            assert_eq!(message, "Select a piece to move.");
        },
        _ => panic!("a click on an empty square is rejected"),
    }
}

#[test]
fn fixed_id_creation_is_exclusive() {
    let mut reg = Registry::new();
    assert!(reg.create_match_with_id(Variant::Tablut, GameMode::Local, 12_345_678));
    assert!(
        !reg.create_match_with_id(Variant::Brandubh, GameMode::Local, 12_345_678),
        "an identifier in use is refused"
    );
    assert_eq!(reg.games.len(), 1);
    // Once the match ended, the identifier is free again.
    reg.end_match(12_345_678);
    assert!(reg.create_match_with_id(Variant::Brandubh, GameMode::Local, 12_345_678));
}

#[test]
fn creation_succeeds_while_identifiers_are_free() {
    // With no eight-digit identifier in use, the draw cannot collide and
    // a match must be created.
    let mut reg = Registry::new();
    assert!(reg.create_match(Variant::Hnefatafl, GameMode::Local).is_some());
    assert!(reg.create_match(Variant::Tablut, GameMode::Online).is_some());
    assert_eq!(reg.games.len(), 2);
}

#[test]
fn registry_create_and_open() {
    let mut reg = Registry::new();
    let id = reg.create_match(Variant::Brandubh, GameMode::Local).unwrap();
    assert!((10_000_000..100_000_000).contains(&id));
    assert_eq!(reg.games.len(), 1);
    let session = String::from("session-a");
    assert_eq!(reg.open_match(&session, id), Ok(()));
    assert_eq!(reg.open_match(&session, 1), Err(GameError::UnknownMatch));
}

#[test]
fn registry_online_match_is_limited_to_two_sessions() {
    let mut reg = Registry::new();
    let id = reg.create_match(Variant::Tablut, GameMode::Online).unwrap();
    let a = String::from("session-a");
    let b = String::from("session-b");
    let c = String::from("session-c");
    assert_eq!(reg.open_match(&a, id), Ok(()));
    assert_eq!(reg.open_match(&b, id), Ok(()));
    assert_eq!(reg.open_match(&c, id), Err(GameError::MatchFull));
    // A session already inside may reopen its match.
    assert_eq!(reg.open_match(&a, id), Ok(()));
    assert_eq!(
        reg.open_match(&c, id).unwrap_err().message(),
        "Game is already full. Maximum of two players allowed."
    );
}

#[test]
fn registry_click_routing() {
    let mut reg = Registry::new();
    let id = reg.create_match(Variant::Hnefatafl, GameMode::Online).unwrap();
    let a = String::from("session-a");
    let b = String::from("session-b");
    reg.register_player(a.clone(), String::from("astrid"), Role::Attacker);
    reg.register_player(b.clone(), String::from("bjorn"), Role::Defender);
    assert_eq!(reg.open_match(&a, id), Ok(()));
    assert_eq!(reg.open_match(&b, id), Ok(()));

    let ghost = String::from("nobody");
    assert_eq!(
        reg.click(&ghost, id, 0, 3).unwrap_err(),
        GameError::NoSession
    );
    assert_eq!(
        reg.click(&a, 99_999_999, 0, 3).unwrap_err(),
        GameError::UnknownMatch
    );
    // Defender may not click while attackers move.
    let outcome = reg.click(&b, id, 0, 3).unwrap();
    assert!(matches!(outcome, ClickOutcome::NotYourTurn));
    // Attacker selects, then moves; the defender may answer.
    assert!(matches!(
        reg.click(&a, id, 0, 3).unwrap(),
        ClickOutcome::ActiveOnly { .. }
    ));
    assert!(matches!(
        reg.click(&a, id, 2, 3).unwrap(),
        ClickOutcome::BroadcastAll { .. }
    ));
    assert!(matches!(
        reg.click(&b, id, 3, 5).unwrap(),
        ClickOutcome::ActiveOnly { .. }
    ));
}

#[test]
fn local_match_admits_more_than_two_sessions() {
    let mut reg = Registry::new();
    let id = reg.create_match(Variant::Brandubh, GameMode::Local).unwrap();
    let a = String::from("session-a");
    let b = String::from("session-b");
    let c = String::from("session-c");
    assert_eq!(reg.open_match(&a, id), Ok(()));
    assert_eq!(reg.open_match(&b, id), Ok(()));
    assert_eq!(reg.open_match(&c, id), Ok(()));
}

#[test]
fn joiner_takes_the_complementary_role() {
    let mut reg = Registry::new();
    let id = reg.create_match(Variant::Hnefatafl, GameMode::Online).unwrap();
    let a = String::from("session-a");
    let b = String::from("session-b");
    reg.register_player(a.clone(), String::from("astrid"), Role::Defender);
    reg.register_player(b.clone(), String::from("bjorn"), Role::Local);
    // With nobody in the match yet, no role can be derived.
    assert_eq!(reg.join_role(&b, id), None);
    assert_eq!(reg.open_match(&a, id), Ok(()));
    // The first player chose defender, so the joiner attacks.
    assert_eq!(reg.join_role(&b, id), Some(Role::Attacker));
    let joiner = reg.players.iter().find(|(s, _)| *s == b).unwrap();
    assert_eq!(joiner.1.role, Role::Attacker);
    assert_eq!(joiner.1.username, "bjorn");
}

#[test]
fn registry_players_and_deregistration() {
    let mut reg = Registry::new();
    let s = String::from("session-x");
    reg.register_player(s.clone(), String::from("freya"), Role::Local);
    assert_eq!(reg.players.len(), 1);
    assert_eq!(reg.players[0].1.username, "freya");
    // Re-registering the same session replaces the record.
    reg.register_player(s.clone(), String::from("freya"), Role::Defender);
    assert_eq!(reg.players.len(), 1);
    assert_eq!(reg.players[0].1.role, Role::Defender);
    reg.deregister_player(&s);
    assert_eq!(reg.players.len(), 0);
}

#[test]
fn registry_end_match_vacates_the_slot() {
    let mut reg = Registry::new();
    let id = reg.create_match(Variant::Brandubh, GameMode::Local).unwrap();
    let s = String::from("session-a");
    reg.register_player(s.clone(), String::from("ulf"), Role::Local);
    assert_eq!(reg.open_match(&s, id), Ok(()));
    reg.end_match(id);
    assert_eq!(reg.games.len(), 1);
    assert!(reg.games[0].is_none());
    assert_eq!(reg.click(&s, id, 0, 3).unwrap_err(), GameError::UnknownMatch);
}

#[test]
fn fresh_ids_are_eight_digits() {
    for _ in 0..32 {
        let id = tafl::registry::generate_random_id();
        assert!((10_000_000..100_000_000).contains(&id));
    }
}

#[test]
fn player_record_holds_username_and_role() {
    let p = Player { username: String::from("sigrid"), role: Role::Attacker };
    assert_eq!(p.username, "sigrid");
    assert_eq!(p.role, Role::Attacker);
}

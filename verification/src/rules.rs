//! The mathematical model of a match: a functional specification of the
//! rule evaluator and the click-driven interaction state machine, together
//! with the invariants every reachable game state satisfies.

use vstd::prelude::*;
use crate::cells::{Cell, CellType, GameError, Phase, Side, SpecialCell, Variant, Winner, side_of};
use crate::setup::{center, dim_of, in_bounds, is_corner_pos, is_throne_pos};

verus! {

/// The abstract value of a match state.
#[verifier::ext_equal]
pub struct GameStateView {
    pub id: int,
    pub variant: Variant,
    pub title: Seq<char>,
    pub board: Seq<Seq<Cell>>,
    pub current_turn: Side,
    pub click_phase: Phase,
    pub source: (int, int),
    pub game_over: bool,
    pub winner: Option<Winner>,
    pub message: Seq<char>,
    pub move_done: bool,
}

// ---------------------------------------------------------------------------
// Board shape and fixed features
// ---------------------------------------------------------------------------

pub open spec fn board_square(b: Seq<Seq<Cell>>, n: int) -> bool {
    b.len() == n && forall|r: int| 0 <= r < n ==> (#[trigger] b[r]).len() == n
}

/// Corner and throne flags are exactly where the initial setup put them.
pub open spec fn fixtures_ok(b: Seq<Seq<Cell>>, n: int) -> bool {
    forall|r: int, c: int|
        in_bounds(n, r, c) ==> (#[trigger] b[r][c]).is_corner == is_corner_pos(n, r, c) && b[r][c].is_throne
            == is_throne_pos(n, r, c)
}

pub open spec fn has_king_at(b: Seq<Seq<Cell>>, r: int, c: int) -> bool {
    b[r][c].cell_type == CellType::King
}

/// Exactly one cell of the board holds the king.
pub open spec fn unique_king(b: Seq<Seq<Cell>>, n: int) -> bool {
    exists|kr: int, kc: int|
        in_bounds(n, kr, kc) && #[trigger] has_king_at(b, kr, kc) && (forall|r: int, c: int|
            in_bounds(n, r, c) && #[trigger] has_king_at(b, r, c) ==> r == kr && c == kc)
}

/// No cell carries a selection or possible-move overlay.
pub open spec fn overlay_clear(b: Seq<Seq<Cell>>, n: int) -> bool {
    forall|r: int, c: int|
        in_bounds(n, r, c) ==> !(#[trigger] b[r][c]).is_selected && !b[r][c].is_possible_move
}

/// The parts of a cell the rules read: piece and fixed features, with the
/// transient overlays ignored.
pub open spec fn same_terrain(a: Cell, b: Cell) -> bool {
    a.cell_type == b.cell_type && a.is_corner == b.is_corner && a.is_throne == b.is_throne
}

// ---------------------------------------------------------------------------
// Movement
// ---------------------------------------------------------------------------

/// A straight rook-like displacement of at least one square.
pub open spec fn orthogonal(fr: int, fc: int, tr: int, tc: int) -> bool {
    (fr == tr || fc == tc) && !(fr == tr && fc == tc)
}

pub open spec fn strictly_between(a: int, x: int, b: int) -> bool {
    (a < x && x < b) || (b < x && x < a)
}

/// Every square strictly between source and target is empty, and for a
/// non-king mover none of them is the throne (the vacated throne stays
/// impassable to ordinary pieces).
pub open spec fn path_clear(
    b: Seq<Seq<Cell>>,
    fr: int,
    fc: int,
    tr: int,
    tc: int,
    king: bool,
) -> bool {
    if fr == tr {
        forall|c: int|
            strictly_between(fc, c, tc) ==> (#[trigger] b[fr][c]).cell_type == CellType::Empty && (
            king || !b[fr][c].is_throne)
    } else {
        forall|r: int|
            strictly_between(fr, r, tr) ==> (#[trigger] b[r][fc]).cell_type == CellType::Empty && (
            king || !b[r][fc].is_throne)
    }
}

/// The piece on `(fr, fc)` may legally move to `(tr, tc)`: in bounds,
/// orthogonal, an empty target that only a king may take when restricted,
/// and a clear path.
pub open spec fn can_move(b: Seq<Seq<Cell>>, n: int, fr: int, fc: int, tr: int, tc: int) -> bool {
    let king = b[fr][fc].cell_type == CellType::King;
    in_bounds(n, fr, fc) && in_bounds(n, tr, tc) && orthogonal(fr, fc, tr, tc) && b[tr][tc].cell_type
        == CellType::Empty && (king || (!b[tr][tc].is_corner && !b[tr][tc].is_throne)) && path_clear(
        b,
        fr,
        fc,
        tr,
        tc,
        king,
    )
}

// ---------------------------------------------------------------------------
// Board transformations
// ---------------------------------------------------------------------------

pub open spec fn strip_overlay_cell(c: Cell) -> Cell {
    Cell { is_selected: false, is_possible_move: false, ..c }
}

/// The same board with every transient overlay cleared.
pub open spec fn strip_overlay(b: Seq<Seq<Cell>>) -> Seq<Seq<Cell>> {
    Seq::new(b.len(), |r: int| Seq::new(b[r].len(), |c: int| strip_overlay_cell(b[r][c])))
}

/// The board as shown right after a piece on `(sr, sc)` was selected:
/// that cell highlighted, and every legal destination marked.
pub open spec fn mark_selection(b: Seq<Seq<Cell>>, n: int, sr: int, sc: int) -> Seq<Seq<Cell>> {
    Seq::new(
        b.len(),
        |r: int|
            Seq::new(
                b[r].len(),
                |c: int|
                    (Cell {
                        is_selected: r == sr && c == sc,
                        is_possible_move: can_move(b, n, sr, sc, r, c),
                        ..b[r][c]
                    }),
            ),
    )
}

pub open spec fn empty_like(c: Cell) -> Cell {
    Cell {
        cell_type: CellType::Empty,
        is_corner: c.is_corner,
        is_throne: c.is_throne,
        is_selected: false,
        is_possible_move: false,
    }
}

pub open spec fn with_piece(c: Cell, t: CellType) -> Cell {
    Cell {
        cell_type: t,
        is_corner: c.is_corner,
        is_throne: c.is_throne,
        is_selected: false,
        is_possible_move: false,
    }
}

/// The board after the piece on `(fr, fc)` slides to `(tr, tc)`, with all
/// overlays cleared. Fixed features stay with their squares.
pub open spec fn do_move(b: Seq<Seq<Cell>>, fr: int, fc: int, tr: int, tc: int) -> Seq<Seq<Cell>> {
    let piece = b[fr][fc].cell_type;
    let b1 = strip_overlay(b);
    let b2 = b1.update(fr, b1[fr].update(fc, empty_like(b[fr][fc])));
    b2.update(tr, b2[tr].update(tc, with_piece(b[tr][tc], piece)))
}

// ---------------------------------------------------------------------------
// Captures
// ---------------------------------------------------------------------------

/// A piece of the side opposing `mover` that a sandwich may take.
/// The king is never captured by a sandwich.
pub open spec fn enemy_piece(t: CellType, mover: Side) -> bool {
    side_of(t) == Some(mover.spec_opposite()) && t != CellType::King
}

/// A square that closes a sandwich for `mover`: a friendly piece (the king
/// counts as a defender), a corner, or the empty throne.
pub open spec fn assist(b: Seq<Seq<Cell>>, n: int, mover: Side, r: int, c: int) -> bool {
    in_bounds(n, r, c) && (side_of(b[r][c].cell_type) == Some(mover) || b[r][c].is_corner || (
    b[r][c].is_throne && b[r][c].cell_type == CellType::Empty))
}

/// After a move to `(tr, tc)`, the enemy piece one step away in direction
/// `(dr, dc)` is flanked against an assisting square two steps away.
pub open spec fn captured_in_dir(
    b: Seq<Seq<Cell>>,
    n: int,
    tr: int,
    tc: int,
    mover: Side,
    dr: int,
    dc: int,
) -> bool {
    in_bounds(n, tr + dr, tc + dc) && enemy_piece(b[tr + dr][tc + dc].cell_type, mover) && assist(
        b,
        n,
        mover,
        tr + 2 * dr,
        tc + 2 * dc,
    )
}

/// The side of the piece that just moved to `(tr, tc)`.
pub open spec fn mover_side(b: Seq<Seq<Cell>>, tr: int, tc: int) -> Side {
    match side_of(b[tr][tc].cell_type) {
        Some(s) => s,
        None => Side::Attacker,
    }
}

/// `(r, c)` is an orthogonal neighbor of `(tr, tc)` captured this move.
pub open spec fn is_captured_at(
    b: Seq<Seq<Cell>>,
    n: int,
    tr: int,
    tc: int,
    r: int,
    c: int,
) -> bool {
    let mover = mover_side(b, tr, tc);
    (r == tr - 1 && c == tc && captured_in_dir(b, n, tr, tc, mover, -1, 0)) || (r == tr + 1 && c
        == tc && captured_in_dir(b, n, tr, tc, mover, 1, 0)) || (r == tr && c == tc - 1
        && captured_in_dir(b, n, tr, tc, mover, 0, -1)) || (r == tr && c == tc + 1
        && captured_in_dir(b, n, tr, tc, mover, 0, 1))
}

/// Resolve all captures triggered by the arrival of a piece on `(tr, tc)`.
/// Only pieces sandwiched by this very move are taken; there is no chain.
pub open spec fn apply_captures(b: Seq<Seq<Cell>>, n: int, tr: int, tc: int) -> Seq<Seq<Cell>> {
    Seq::new(
        b.len(),
        |r: int|
            Seq::new(
                b[r].len(),
                |c: int|
                    if is_captured_at(b, n, tr, tc, r, c) {
                        empty_like(b[r][c])
                    } else {
                        b[r][c]
                    },
            ),
    )
}

// ---------------------------------------------------------------------------
// Win conditions
// ---------------------------------------------------------------------------

/// The king stands on a corner square: the defenders have won.
pub open spec fn king_escaped(b: Seq<Seq<Cell>>, n: int) -> bool {
    has_king_at(b, 0, 0) || has_king_at(b, 0, n - 1) || has_king_at(b, n - 1, 0) || has_king_at(
        b,
        n - 1,
        n - 1,
    )
}

/// A square that counts against the king when he is surrounded: an
/// attacker, a corner, or the throne. Squares off the board do not count.
pub open spec fn hostile_to_king(b: Seq<Seq<Cell>>, n: int, r: int, c: int) -> bool {
    in_bounds(n, r, c) && (b[r][c].cell_type == CellType::Attacker || b[r][c].is_corner
        || b[r][c].is_throne)
}

pub open spec fn king_surrounded_at(b: Seq<Seq<Cell>>, n: int, kr: int, kc: int) -> bool {
    hostile_to_king(b, n, kr - 1, kc) && hostile_to_king(b, n, kr + 1, kc) && hostile_to_king(
        b,
        n,
        kr,
        kc - 1,
    ) && hostile_to_king(b, n, kr, kc + 1)
}

/// The king is enclosed on all four orthogonal sides: the attackers have
/// won. The king stays on the board; the game simply ends.
pub open spec fn king_captured(b: Seq<Seq<Cell>>, n: int) -> bool {
    exists|kr: int, kc: int|
        in_bounds(n, kr, kc) && #[trigger] has_king_at(b, kr, kc) && king_surrounded_at(b, n, kr, kc)
}

pub open spec fn winner_after(b: Seq<Seq<Cell>>, n: int) -> Option<Winner> {
    if king_escaped(b, n) {
        Some(Winner::KingEscaped)
    } else if king_captured(b, n) {
        Some(Winner::Attackers)
    } else {
        Option::None
    }
}

// ---------------------------------------------------------------------------
// Status messages
// ---------------------------------------------------------------------------

pub open spec fn turn_message(s: Side) -> Seq<char> {
    match s {
        Side::Attacker => "Attacker's turn"@,
        Side::Defender => "Defender's turn"@,
    }
}

pub open spec fn win_message(w: Winner) -> Seq<char> {
    match w {
        Winner::Attackers => "Attacker wins!"@,
        Winner::Defenders => "Defender wins!"@,
        Winner::KingEscaped => "King wins!"@,
    }
}

// ---------------------------------------------------------------------------
// The move transition
// ---------------------------------------------------------------------------

/// Why a programmatic move from `(fr, fc)` to `(tr, tc)` is rejected, if
/// it is. The checks run in this order; `None` means the move is legal.
pub open spec fn move_error(
    s: GameStateView,
    fr: int,
    fc: int,
    tr: int,
    tc: int,
) -> Option<GameError> {
    let n = dim_of(s.variant);
    let b = s.board;
    if s.game_over {
        Some(GameError::GameOver)
    } else if !in_bounds(n, fr, fc) || !in_bounds(n, tr, tc) {
        Some(GameError::InvalidCoordinate)
    } else if !orthogonal(fr, fc, tr, tc) {
        Some(GameError::NonOrthogonalMove)
    } else if b[fr][fc].cell_type == CellType::Empty {
        Some(GameError::NoPieceToMove)
    } else if side_of(b[fr][fc].cell_type) != Some(s.current_turn) {
        Some(GameError::NotYourPiece(s.current_turn))
    } else if b[tr][tc].is_corner && b[fr][fc].cell_type != CellType::King {
        Some(GameError::ForbiddenDestination(SpecialCell::Corner))
    } else if b[tr][tc].is_throne && b[fr][fc].cell_type != CellType::King {
        Some(GameError::ForbiddenDestination(SpecialCell::Throne))
    } else if b[tr][tc].cell_type != CellType::Empty || !path_clear(
        b,
        fr,
        fc,
        tr,
        tc,
        b[fr][fc].cell_type == CellType::King,
    ) {
        Some(GameError::BlockedPath)
    } else {
        Option::None
    }
}

/// The full effect of `make_move`: either the state is unchanged and an
/// error comes back, or the piece slides, captures resolve, the win status
/// updates and the turn flips.
pub open spec fn spec_make_move(s: GameStateView, fr: int, fc: int, tr: int, tc: int) -> (
    GameStateView,
    Option<GameError>,
) {
    match move_error(s, fr, fc, tr, tc) {
        Some(e) => (s, Some(e)),
        Option::None => {
            let n = dim_of(s.variant);
            let b1 = apply_captures(do_move(s.board, fr, fc, tr, tc), n, tr, tc);
            match winner_after(b1, n) {
                Some(w) => (
                    GameStateView {
                        board: b1,
                        game_over: true,
                        winner: Some(w),
                        message: win_message(w),
                        move_done: true,
                        ..s
                    },
                    Option::None,
                ),
                Option::None => (
                    GameStateView {
                        board: b1,
                        current_turn: s.current_turn.spec_opposite(),
                        message: turn_message(s.current_turn.spec_opposite()),
                        move_done: true,
                        ..s
                    },
                    Option::None,
                ),
            }
        },
    }
}

// ---------------------------------------------------------------------------
// The click transition
// ---------------------------------------------------------------------------

/// A rejected second click: overlays cleared, back to awaiting a source,
/// and the error text shown.
pub open spec fn click_reject(s: GameStateView, e: GameError) -> GameStateView {
    GameStateView {
        board: strip_overlay(s.board),
        click_phase: Phase::AwaitSource,
        message: e.spec_message(),
        move_done: false,
        ..s
    }
}

/// The full effect of `process_click` on a state: the two-phase state
/// machine of selection and movement.
pub open spec fn spec_process_click(s: GameStateView, row: int, col: int) -> (
    GameStateView,
    Option<GameError>,
) {
    let n = dim_of(s.variant);
    let b = s.board;
    if s.game_over {
        (
            GameStateView { message: GameError::GameOver.spec_message(), move_done: false, ..s },
            Some(GameError::GameOver),
        )
    } else if !in_bounds(n, row, col) {
        (click_reject(s, GameError::InvalidCoordinate), Some(GameError::InvalidCoordinate))
    } else if s.click_phase == Phase::AwaitSource {
        let cell = b[row][col];
        if cell.cell_type == CellType::Empty || cell.is_corner {
            (
                GameStateView {
                    message: GameError::NoPieceToMove.spec_message(),
                    move_done: false,
                    ..s
                },
                Some(GameError::NoPieceToMove),
            )
        } else if side_of(cell.cell_type) != Some(s.current_turn) {
            (
                GameStateView {
                    message: GameError::NotYourPiece(s.current_turn).spec_message(),
                    move_done: false,
                    ..s
                },
                Some(GameError::NotYourPiece(s.current_turn)),
            )
        } else {
            (
                GameStateView {
                    board: mark_selection(b, n, row, col),
                    click_phase: Phase::AwaitTarget,
                    source: (row, col),
                    move_done: false,
                    ..s
                },
                Option::None,
            )
        }
    } else {
        let sr = s.source.0;
        let sc = s.source.1;
        if row == sr && col == sc {
            (
                GameStateView {
                    board: strip_overlay(b),
                    click_phase: Phase::AwaitSource,
                    move_done: false,
                    ..s
                },
                Option::None,
            )
        } else if b[row][col].cell_type != CellType::Empty {
            (click_reject(s, GameError::OccupiedDestination), Some(GameError::OccupiedDestination))
        } else if b[row][col].is_corner && b[sr][sc].cell_type != CellType::King {
            (
                click_reject(s, GameError::ForbiddenDestination(SpecialCell::Corner)),
                Some(GameError::ForbiddenDestination(SpecialCell::Corner)),
            )
        } else if b[row][col].is_throne && b[sr][sc].cell_type != CellType::King {
            (
                click_reject(s, GameError::ForbiddenDestination(SpecialCell::Throne)),
                Some(GameError::ForbiddenDestination(SpecialCell::Throne)),
            )
        } else {
            let mv = spec_make_move(s, sr, sc, row, col);
            match mv.1 {
                Some(e) => (click_reject(s, e), Some(e)),
                Option::None => (
                    GameStateView { click_phase: Phase::AwaitSource, ..mv.0 },
                    Option::None,
                ),
            }
        }
    }
}

// ---------------------------------------------------------------------------
// Well-formedness
// ---------------------------------------------------------------------------

/// The structural invariants of a reachable state that do not involve the
/// transient overlays: a square board of the variant's size, fixtures in
/// their initial places, exactly one king, and a winner exactly when the
/// game is over.
pub open spec fn core_wf(s: GameStateView) -> bool {
    let n = dim_of(s.variant);
    board_square(s.board, n) && fixtures_ok(s.board, n) && unique_king(s.board, n) && (s.game_over
        <==> s.winner is Some)
}

/// While a source is awaited no overlays show; while a target is awaited
/// exactly the source is selected, it holds a piece of the side to move,
/// and the possible-move marks are exactly the legal destinations.
pub open spec fn overlay_wf(s: GameStateView) -> bool {
    let n = dim_of(s.variant);
    let b = s.board;
    match s.click_phase {
        Phase::AwaitSource => overlay_clear(b, n),
        Phase::AwaitTarget => {
            let sr = s.source.0;
            let sc = s.source.1;
            !s.game_over && in_bounds(n, sr, sc) && b[sr][sc].cell_type != CellType::Empty
                && !b[sr][sc].is_corner && side_of(b[sr][sc].cell_type) == Some(s.current_turn) && (
            forall|r: int, c: int|
                in_bounds(n, r, c) ==> ((#[trigger] b[r][c]).is_selected <==> (r == sr && c == sc))
                    && b[r][c].is_possible_move == can_move(b, n, sr, sc, r, c))
        },
    }
}

/// Every invariant of a reachable match state.
pub open spec fn wf(s: GameStateView) -> bool {
    core_wf(s) && overlay_wf(s)
}

/// The `Result` a caller sees for a transition's optional error.
pub open spec fn as_result(e: Option<GameError>) -> Result<(), GameError> {
    match e {
        Some(e) => Err(e),
        Option::None => Ok(()),
    }
}

// ---------------------------------------------------------------------------
// Lemmas
// ---------------------------------------------------------------------------

/// Whether a piece may move somewhere depends only on the pieces and the
/// fixed features of the squares, never on the transient overlays.
pub proof fn lemma_can_move_same_terrain(
    b1: Seq<Seq<Cell>>,
    b2: Seq<Seq<Cell>>,
    n: int,
    fr: int,
    fc: int,
    tr: int,
    tc: int,
)
    requires
        board_square(b1, n),
        board_square(b2, n),
        forall|r: int, c: int| in_bounds(n, r, c) ==> same_terrain(#[trigger] b1[r][c], b2[r][c]),
    ensures
        can_move(b1, n, fr, fc, tr, tc) == can_move(b2, n, fr, fc, tr, tc),
{
    if in_bounds(n, fr, fc) && in_bounds(n, tr, tc) && orthogonal(fr, fc, tr, tc) {
        let king1 = b1[fr][fc].cell_type == CellType::King;
        let king2 = b2[fr][fc].cell_type == CellType::King;
        assert(king1 == king2);
        assert forall|r: int, c: int|
            in_bounds(n, r, c) implies same_terrain(#[trigger] b2[r][c], b1[r][c]) by {
            assert(same_terrain(b1[r][c], b2[r][c]));
        }
        if path_clear(b1, fr, fc, tr, tc, king1) {
            lemma_path_clear_same_terrain(b1, b2, n, fr, fc, tr, tc, king1);
        }
        if path_clear(b2, fr, fc, tr, tc, king1) {
            lemma_path_clear_same_terrain(b2, b1, n, fr, fc, tr, tc, king1);
        }
    }
}

proof fn lemma_path_clear_same_terrain(
    b1: Seq<Seq<Cell>>,
    b2: Seq<Seq<Cell>>,
    n: int,
    fr: int,
    fc: int,
    tr: int,
    tc: int,
    king: bool,
)
    requires
        board_square(b1, n),
        board_square(b2, n),
        forall|r: int, c: int| in_bounds(n, r, c) ==> same_terrain(#[trigger] b1[r][c], b2[r][c]),
        in_bounds(n, fr, fc),
        in_bounds(n, tr, tc),
        path_clear(b1, fr, fc, tr, tc, king),
    ensures
        path_clear(b2, fr, fc, tr, tc, king),
{
    if fr == tr {
        assert forall|c: int| strictly_between(fc, c, tc) implies (#[trigger] b2[fr][c]).cell_type
            == CellType::Empty && (king || !b2[fr][c].is_throne) by {
            assert(in_bounds(n, fr, c));
            assert((b1[fr][c]).cell_type == CellType::Empty && (king || !b1[fr][c].is_throne));
            assert(same_terrain(b1[fr][c], b2[fr][c]));
        }
    } else {
        assert forall|r: int| strictly_between(fr, r, tr) implies (#[trigger] b2[r][fc]).cell_type
            == CellType::Empty && (king || !b2[r][fc].is_throne) by {
            assert(in_bounds(n, r, fc));
            assert((b1[r][fc]).cell_type == CellType::Empty && (king || !b1[r][fc].is_throne));
            assert(same_terrain(b1[r][fc], b2[r][fc]));
        }
    }
}

/// Piece-and-feature equality transfers the fixture and unique-king
/// invariants from one board to another.
pub proof fn lemma_core_same_terrain(b1: Seq<Seq<Cell>>, b2: Seq<Seq<Cell>>, n: int)
    requires
        board_square(b1, n),
        board_square(b2, n),
        forall|r: int, c: int| in_bounds(n, r, c) ==> same_terrain(#[trigger] b1[r][c], b2[r][c]),
        fixtures_ok(b1, n),
        unique_king(b1, n),
    ensures
        fixtures_ok(b2, n),
        unique_king(b2, n),
{
    assert forall|r: int, c: int|
        in_bounds(n, r, c) implies (#[trigger] b2[r][c]).is_corner == is_corner_pos(n, r, c)
        && b2[r][c].is_throne == is_throne_pos(n, r, c) by {
        assert(same_terrain(b1[r][c], b2[r][c]));
    }
    let (kr, kc) = choose|kr: int, kc: int|
        in_bounds(n, kr, kc) && #[trigger] has_king_at(b1, kr, kc) && (forall|r: int, c: int|
            in_bounds(n, r, c) && #[trigger] has_king_at(b1, r, c) ==> r == kr && c == kc);
    assert(same_terrain(b1[kr][kc], b2[kr][kc]));
    assert(has_king_at(b2, kr, kc));
    assert forall|r: int, c: int|
        in_bounds(n, r, c) && #[trigger] has_king_at(b2, r, c) implies r == kr && c == kc by {
        assert(same_terrain(b1[r][c], b2[r][c]));
        assert(has_king_at(b1, r, c));
    }
}

/// The shape, terrain and overlay facts of a stripped board.
pub proof fn lemma_strip_shape(b: Seq<Seq<Cell>>, n: int)
    requires
        board_square(b, n),
    ensures
        board_square(strip_overlay(b), n),
        overlay_clear(strip_overlay(b), n),
        forall|r: int, c: int|
            in_bounds(n, r, c) ==> same_terrain(#[trigger] strip_overlay(b)[r][c], b[r][c]),
{
}

/// The shape and terrain facts of a board with a fresh selection overlay.
pub proof fn lemma_mark_shape(b: Seq<Seq<Cell>>, n: int, sr: int, sc: int)
    requires
        board_square(b, n),
    ensures
        board_square(mark_selection(b, n, sr, sc), n),
        forall|r: int, c: int|
            in_bounds(n, r, c) ==> same_terrain(#[trigger] mark_selection(b, n, sr, sc)[r][c], b[r][c]),
{
}

/// Deselecting returns exactly the board that stood before the selection.
pub proof fn lemma_strip_mark(b: Seq<Seq<Cell>>, n: int, sr: int, sc: int)
    requires
        board_square(b, n),
        overlay_clear(b, n),
    ensures
        strip_overlay(mark_selection(b, n, sr, sc)) == b,
{
    assert(strip_overlay(mark_selection(b, n, sr, sc)) =~~= b);
}

/// Sliding a piece and resolving the captures it triggers preserves the
/// board's shape, its fixed features and the unique king, and leaves no
/// overlays behind.
pub proof fn lemma_move_preserves_core(b: Seq<Seq<Cell>>, n: int, fr: int, fc: int, tr: int, tc: int)
    requires
        board_square(b, n),
        fixtures_ok(b, n),
        unique_king(b, n),
        in_bounds(n, fr, fc),
        in_bounds(n, tr, tc),
        !(fr == tr && fc == tc),
        b[fr][fc].cell_type != CellType::Empty,
        b[tr][tc].cell_type == CellType::Empty,
    ensures
        ({
            let b2 = apply_captures(do_move(b, fr, fc, tr, tc), n, tr, tc);
            board_square(b2, n) && fixtures_ok(b2, n) && unique_king(b2, n) && overlay_clear(b2, n)
        }),
{
    let piece = b[fr][fc].cell_type;
    let b1 = do_move(b, fr, fc, tr, tc);
    let b2 = apply_captures(b1, n, tr, tc);
    assert(board_square(b1, n));
    assert forall|r: int, c: int| in_bounds(n, r, c) implies #[trigger] b1[r][c] == (if r == fr && c
        == fc {
        empty_like(b[fr][fc])
    } else if r == tr && c == tc {
        with_piece(b[tr][tc], piece)
    } else {
        strip_overlay_cell(b[r][c])
    }) by {}
    assert(board_square(b2, n));
    assert forall|r: int, c: int| in_bounds(n, r, c) implies #[trigger] b2[r][c] == (if is_captured_at(
        b1,
        n,
        tr,
        tc,
        r,
        c,
    ) {
        empty_like(b1[r][c])
    } else {
        b1[r][c]
    }) by {}
    assert(fixtures_ok(b2, n));
    assert(overlay_clear(b2, n));
    // The king is unique afterwards: it either made this move or stood
    // elsewhere untouched; a capture never takes a king.
    let (kr, kc) = choose|kr: int, kc: int|
        in_bounds(n, kr, kc) && #[trigger] has_king_at(b, kr, kc) && (forall|r: int, c: int|
            in_bounds(n, r, c) && #[trigger] has_king_at(b, r, c) ==> r == kr && c == kc);
    let (nkr, nkc) = if piece == CellType::King {
        (tr, tc)
    } else {
        (kr, kc)
    };
    if piece == CellType::King {
        assert(has_king_at(b, fr, fc));
    }
    assert(has_king_at(b1, nkr, nkc));
    assert(!is_captured_at(b1, n, tr, tc, nkr, nkc));
    assert(has_king_at(b2, nkr, nkc));
    assert forall|r: int, c: int|
        in_bounds(n, r, c) && #[trigger] has_king_at(b2, r, c) implies r == nkr && c == nkc by {
        assert(has_king_at(b1, r, c));
        if !(r == fr && c == fc) && !(r == tr && c == tc) {
            assert(has_king_at(b, r, c));
        }
    }
}

/// A move either fails and leaves the state untouched, or succeeds,
/// preserves the structural invariants, and leaves no overlays behind.
pub proof fn lemma_make_move_wf(s: GameStateView, fr: int, fc: int, tr: int, tc: int)
    requires
        core_wf(s),
    ensures
        core_wf(spec_make_move(s, fr, fc, tr, tc).0),
        spec_make_move(s, fr, fc, tr, tc).1 is Some ==> spec_make_move(s, fr, fc, tr, tc).0 == s,
        spec_make_move(s, fr, fc, tr, tc).1 is None ==> overlay_clear(
            spec_make_move(s, fr, fc, tr, tc).0.board,
            dim_of(s.variant),
        ),
{
    let n = dim_of(s.variant);
    if move_error(s, fr, fc, tr, tc) is None {
        lemma_move_preserves_core(s.board, n, fr, fc, tr, tc);
    }
}

/// Processing a click preserves every invariant of the state: the unique
/// king, the fixed corner and throne flags, and the discipline of the
/// selection overlays.
pub proof fn lemma_process_click_wf(s: GameStateView, row: int, col: int)
    requires
        wf(s),
    ensures
        wf(spec_process_click(s, row, col).0),
{
    let n = dim_of(s.variant);
    let b = s.board;
    let s2 = spec_process_click(s, row, col).0;
    if s.game_over {
        // Only the message changes.
    } else if !in_bounds(n, row, col) {
        lemma_strip_shape(b, n);
        lemma_core_same_terrain(b, strip_overlay(b), n);
    } else if s.click_phase == Phase::AwaitSource {
        let cell = b[row][col];
        if cell.cell_type == CellType::Empty || cell.is_corner {
        } else if side_of(cell.cell_type) != Some(s.current_turn) {
        } else {
            let m = mark_selection(b, n, row, col);
            lemma_mark_shape(b, n, row, col);
            lemma_core_same_terrain(b, m, n);
            assert(same_terrain(m[row][col], b[row][col]));
            assert forall|r: int, c: int| in_bounds(n, r, c) implies ((#[trigger] m[r][c]).is_selected
                <==> (r == row && c == col)) && m[r][c].is_possible_move == can_move(
                m,
                n,
                row,
                col,
                r,
                c,
            ) by {
                lemma_can_move_same_terrain(b, m, n, row, col, r, c);
            }
        }
    } else {
        let sr = s.source.0;
        let sc = s.source.1;
        if row == sr && col == sc {
            lemma_strip_shape(b, n);
            lemma_core_same_terrain(b, strip_overlay(b), n);
        } else if b[row][col].cell_type != CellType::Empty {
            lemma_strip_shape(b, n);
            lemma_core_same_terrain(b, strip_overlay(b), n);
        } else if b[row][col].is_corner && b[sr][sc].cell_type != CellType::King {
            lemma_strip_shape(b, n);
            lemma_core_same_terrain(b, strip_overlay(b), n);
        } else if b[row][col].is_throne && b[sr][sc].cell_type != CellType::King {
            lemma_strip_shape(b, n);
            lemma_core_same_terrain(b, strip_overlay(b), n);
        } else {
            lemma_make_move_wf(s, sr, sc, row, col);
            if spec_make_move(s, sr, sc, row, col).1 is Some {
                lemma_strip_shape(b, n);
                lemma_core_same_terrain(b, strip_overlay(b), n);
            }
        }
    }
}

/// A sandwich capture never takes the king: resolving captures leaves
/// the king on exactly the squares it held, so one king stays one king.
pub proof fn lemma_captures_preserve_kings(b: Seq<Seq<Cell>>, n: int, tr: int, tc: int)
    requires
        board_square(b, n),
    ensures
        forall|r: int, c: int|
            in_bounds(n, r, c) ==> (has_king_at(apply_captures(b, n, tr, tc), r, c)
                == has_king_at(b, r, c)),
        unique_king(b, n) ==> unique_king(apply_captures(b, n, tr, tc), n),
{
    let b2 = apply_captures(b, n, tr, tc);
    assert forall|r: int, c: int|
        in_bounds(n, r, c) implies (has_king_at(b2, r, c) == has_king_at(b, r, c)) by {
        if is_captured_at(b, n, tr, tc, r, c) {
            assert(b[r][c].cell_type != CellType::King);
            assert(b2[r][c] == empty_like(b[r][c]));
        } else {
            assert(b2[r][c] == b[r][c]);
        }
    }
    if unique_king(b, n) {
        let (kr, kc) = choose|kr: int, kc: int|
            in_bounds(n, kr, kc) && #[trigger] has_king_at(b, kr, kc) && (forall|r: int, c: int|
                in_bounds(n, r, c) && #[trigger] has_king_at(b, r, c) ==> r == kr && c == kc);
        assert(has_king_at(b2, kr, kc));
        assert forall|r: int, c: int|
            in_bounds(n, r, c) && #[trigger] has_king_at(b2, r, c) implies r == kr && c == kc by {
            assert(has_king_at(b, r, c));
        }
    }
}

/// The discipline of the transient overlays on any reachable state: at
/// most one cell is selected, a selected cell holds a piece, and a
/// possible-move mark only ever shows while some cell is selected.
pub proof fn lemma_overlay_discipline(s: GameStateView)
    requires
        wf(s),
    ensures
        forall|r1: int, c1: int, r2: int, c2: int|
            in_bounds(dim_of(s.variant), r1, c1) && in_bounds(dim_of(s.variant), r2, c2) && (
            #[trigger] s.board[r1][c1]).is_selected && (#[trigger] s.board[r2][c2]).is_selected
                ==> r1 == r2 && c1 == c2,
        forall|r: int, c: int|
            in_bounds(dim_of(s.variant), r, c) && (#[trigger] s.board[r][c]).is_selected
                ==> s.board[r][c].cell_type != CellType::Empty,
        forall|r: int, c: int|
            in_bounds(dim_of(s.variant), r, c) && (#[trigger] s.board[r][c]).is_possible_move
                ==> exists|r2: int, c2: int|
                in_bounds(dim_of(s.variant), r2, c2) && (#[trigger] s.board[r2][c2]).is_selected,
{
    let n = dim_of(s.variant);
    if s.click_phase == Phase::AwaitTarget {
        let sr = s.source.0;
        let sc = s.source.1;
        assert(s.board[sr][sc].is_selected);
    }
}

/// Selecting a piece and clicking it again deselects it: the board comes
/// back byte-identical to what stood before the selection, and nothing
/// else of the game changes.
pub proof fn lemma_select_then_deselect(s: GameStateView, row: int, col: int)
    requires
        wf(s),
        s.click_phase == Phase::AwaitSource,
        spec_process_click(s, row, col).1 is None,
    ensures
        ({
            let s1 = spec_process_click(s, row, col).0;
            let s2 = spec_process_click(s1, row, col).0;
            spec_process_click(s1, row, col).1 is None && s2.board == s.board && s2.click_phase
                == Phase::AwaitSource && s2.current_turn == s.current_turn && s2.message
                == s.message && s2.game_over == s.game_over && s2.winner == s.winner
        }),
{
    let n = dim_of(s.variant);
    let s1 = spec_process_click(s, row, col).0;
    assert(s1.board == mark_selection(s.board, n, row, col));
    lemma_strip_mark(s.board, n, row, col);
}

} // verus!

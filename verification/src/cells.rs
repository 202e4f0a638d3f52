//! Core datatypes of the game: cells, sides, phases, winners, variants,
//! and the error taxonomy surfaced to users.

use vstd::prelude::*;
use vstd::string::StringExecFns;

verus! {

/// What a board square holds.
#[derive(Debug, Clone, Copy, PartialEq, Eq, Structural)]
pub enum CellType {
    Empty,
    Attacker,
    Defender,
    King,
}

/// One square of the board.
///
/// `is_corner` and `is_throne` are positional properties, fixed for the
/// board's lifetime; `is_selected` and `is_possible_move` are transient
/// UI overlays reset each half-turn.
#[derive(Debug, Clone, Copy, PartialEq, Eq, Structural)]
pub struct Cell {
    pub cell_type: CellType,
    pub is_corner: bool,
    pub is_throne: bool,
    pub is_selected: bool,
    pub is_possible_move: bool,
}

impl DeepView for Cell {
    type V = Cell;

    open spec fn deep_view(&self) -> Cell {
        *self
    }
}

/// The two opposing sides. The King belongs to the defending side.
#[derive(Debug, Clone, Copy, PartialEq, Eq, Structural)]
pub enum Side {
    Attacker,
    Defender,
}

impl Side {
    /// The side whose turn comes next.
    pub fn opposite(self) -> (r: Side)
        ensures
            r == self.spec_opposite(),
    {
        match self {
            Side::Attacker => Side::Defender,
            Side::Defender => Side::Attacker,
        }
    }

    pub open spec fn spec_opposite(self) -> Side {
        match self {
            Side::Attacker => Side::Defender,
            Side::Defender => Side::Attacker,
        }
    }
}

/// The side a piece fights for, if any.
pub open spec fn side_of(t: CellType) -> Option<Side> {
    match t {
        CellType::Empty => Option::None,
        CellType::Attacker => Option::Some(Side::Attacker),
        CellType::Defender => Option::Some(Side::Defender),
        CellType::King => Option::Some(Side::Defender),
    }
}

/// Position of the click-driven interaction state machine.
#[derive(Debug, Clone, Copy, PartialEq, Eq, Structural)]
pub enum Phase {
    AwaitSource,
    AwaitTarget,
}

/// How a finished game ended. A king escape is a win for the defenders.
#[derive(Debug, Clone, Copy, PartialEq, Eq, Structural)]
pub enum Winner {
    Attackers,
    Defenders,
    KingEscaped,
}

/// The three supported variants of the game.
#[derive(Debug, Clone, Copy, PartialEq, Eq, Structural)]
pub enum Variant {
    Brandubh,
    Tablut,
    Hnefatafl,
}

/// The restricted squares a non-king piece may not enter.
#[derive(Debug, Clone, Copy, PartialEq, Eq, Structural)]
pub enum SpecialCell {
    Corner,
    Throne,
}

/// Every error the game surfaces to users, across the rules engine, the
/// click interpreter, the match coordinator and the registry.
#[derive(Debug, Clone, Copy, PartialEq, Eq, Structural)]
pub enum GameError {
    /// A coordinate outside the board.
    InvalidCoordinate,
    /// Any move or click attempt after the game ended.
    GameOver,
    /// First click on an empty square or a corner.
    NoPieceToMove,
    /// First click on a piece that the given side may not move.
    /// The payload is the side whose turn it is.
    NotYourPiece(Side),
    /// Second click on a non-empty square.
    OccupiedDestination,
    /// A non-king piece may not enter a corner or the throne.
    ForbiddenDestination(SpecialCell),
    /// A move that is not along a single row or column.
    NonOrthogonalMove,
    /// A non-empty square, or the throne for a non-king, lies on the way.
    BlockedPath,
    /// Online mode: a click from the session not bound to the side to move.
    NotYourTurn,
    /// No live match under the given identifier.
    UnknownMatch,
    /// An online match already has two players.
    MatchFull,
    /// The session identifier is not registered.
    NoSession,
}

impl GameError {
    pub open spec fn spec_message(self) -> Seq<char> {
        match self {
            GameError::InvalidCoordinate => "Invalid cell coordinates."@,
            GameError::GameOver => "Game is already over."@,
            GameError::NoPieceToMove => "Select a piece to move."@,
            GameError::NotYourPiece(side) => match side {
                Side::Attacker => "Cannot move the defender's piece."@,
                Side::Defender => "Cannot move the attacker's piece."@,
            },
            GameError::OccupiedDestination => "Select an empty cell to move to."@,
            GameError::ForbiddenDestination(kind) => match kind {
                SpecialCell::Corner => "Cannot move to the corner."@,
                SpecialCell::Throne => "Cannot move to the throne."@,
            },
            GameError::NonOrthogonalMove => "Move must be along a single row or column."@,
            GameError::BlockedPath => "The path is blocked."@,
            GameError::NotYourTurn => "Not your turn"@,
            GameError::UnknownMatch => "Game not found or inactive"@,
            GameError::MatchFull => "Game is already full. Maximum of two players allowed."@,
            GameError::NoSession => "Session ID not found"@,
        }
    }

    /// The human-readable text shown to users for this error.
    pub fn message(&self) -> (r: String)
        ensures
            r@ == self.spec_message(),
    {
        match self {
            GameError::InvalidCoordinate => String::from_str("Invalid cell coordinates."),
            GameError::GameOver => String::from_str("Game is already over."),
            GameError::NoPieceToMove => String::from_str("Select a piece to move."),
            GameError::NotYourPiece(side) => match side {
                Side::Attacker => String::from_str("Cannot move the defender's piece."),
                Side::Defender => String::from_str("Cannot move the attacker's piece."),
            },
            GameError::OccupiedDestination => String::from_str("Select an empty cell to move to."),
            GameError::ForbiddenDestination(kind) => match kind {
                SpecialCell::Corner => String::from_str("Cannot move to the corner."),
                SpecialCell::Throne => String::from_str("Cannot move to the throne."),
            },
            GameError::NonOrthogonalMove => String::from_str(
                "Move must be along a single row or column.",
            ),
            GameError::BlockedPath => String::from_str("The path is blocked."),
            GameError::NotYourTurn => String::from_str("Not your turn"),
            GameError::UnknownMatch => String::from_str("Game not found or inactive"),
            GameError::MatchFull => String::from_str(
                "Game is already full. Maximum of two players allowed.",
            ),
            GameError::NoSession => String::from_str("Session ID not found"),
        }
    }
}

} // verus!

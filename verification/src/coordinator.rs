//! The per-match coordinator: the variant envelope holding the mirrored
//! pair of game states, turn ownership in online matches, and the
//! decision of which rendering each subscriber receives.
//!
//! An online match keeps two game states in lockstep, one per role; the
//! selection overlay a player sees is never broadcast to the other side.

use vstd::prelude::*;
use crate::cells::{Cell, GameError, Side, Variant};
use crate::hnefatafl::{GameState, stripped_board};
use crate::rules::{
    GameStateView, overlay_clear, spec_process_click, strip_overlay, wf,
};
use crate::setup::dim_of;

verus! {

/// Whether a match is played on one shared view or online by two roles.
#[derive(Debug, Clone, Copy, PartialEq, Eq, Structural)]
pub enum GameMode {
    Local,
    Online,
}

/// What a session is to a match: a co-located player sharing one view,
/// or one of the two online roles.
#[derive(Debug, Clone, Copy, PartialEq, Eq, Structural)]
pub enum Role {
    Local,
    Attacker,
    Defender,
}

/// The variant envelope of a match: the attacker-view and defender-view
/// game states, kept in lockstep, and the match's mode.
pub enum GameVariant {
    Tablut(GameState, GameState, GameMode),
    Hnefatafl(GameState, GameState, GameMode),
    Brandubh(GameState, GameState, GameMode),
}

/// What the coordinator decides about one click: whether the match
/// advanced and which rendering each subscriber receives.
#[derive(Debug)]
pub enum ClickOutcome {
    /// Online mode: the click came from the session not bound to the side
    /// to move. Nothing changed and nothing is broadcast.
    NotYourTurn,
    /// The click was rejected by the rules; the reply goes only to the
    /// clicking session, nothing is broadcast.
    Rejected { board: Vec<Vec<Cell>>, message: String, error: GameError },
    /// Every subscriber receives this rendering: any successful click in
    /// local mode, or a completed move in online mode.
    BroadcastAll { board: Vec<Vec<Cell>>, message: String },
    /// Online selection or deselection: only the active session sees
    /// `board`; every other subscriber receives `others_board`, which
    /// carries no selection or possible-move overlay.
    ActiveOnly { board: Vec<Vec<Cell>>, others_board: Vec<Vec<Cell>>, message: String },
}

/// May a session with this role click while `turn` is to move?
pub open spec fn role_matches(role: Role, turn: Side) -> bool {
    match role {
        Role::Local => true,
        Role::Attacker => turn == Side::Attacker,
        Role::Defender => turn == Side::Defender,
    }
}

/// The full effect of routing one click into a match envelope: turn
/// ownership policed, both mirrored views advanced together, and the
/// outcome describing what each subscriber receives.
pub open spec fn click_transition(
    pre: GameVariant,
    post: GameVariant,
    role: Role,
    row: int,
    col: int,
    outcome: ClickOutcome,
) -> bool {
    post.mode_spec() == pre.mode_spec() && post.variant_of() == pre.variant_of() && (if !role_matches(
        role,
        pre.attacker_view().current_turn,
    ) {
        post.attacker_view() == pre.attacker_view() && post.defender_view() == pre.defender_view()
            && outcome is NotYourTurn
    } else {
        let s2 = spec_process_click(pre.attacker_view(), row, col).0;
        let e = spec_process_click(pre.attacker_view(), row, col).1;
        let n = dim_of(s2.variant);
        post.attacker_view() == s2 && post.defender_view() == s2 && (match outcome {
            ClickOutcome::NotYourTurn => false,
            ClickOutcome::Rejected { board, message, error } => e == Some(error)
                && board.deep_view() == s2.board && message@ == s2.message,
            ClickOutcome::BroadcastAll { board, message } => e is None && (pre.mode_spec()
                == GameMode::Local || s2.move_done) && board.deep_view() == s2.board && message@
                == s2.message,
            ClickOutcome::ActiveOnly { board, others_board, message } => e is None
                && pre.mode_spec() == GameMode::Online && !s2.move_done && board.deep_view()
                == s2.board && others_board.deep_view() == strip_overlay(s2.board)
                && overlay_clear(others_board.deep_view(), n) && message@ == s2.message,
        })
    })
}

impl GameVariant {
    pub open spec fn attacker_view(self) -> GameStateView {
        match self {
            GameVariant::Tablut(a, _, _) => a@,
            GameVariant::Hnefatafl(a, _, _) => a@,
            GameVariant::Brandubh(a, _, _) => a@,
        }
    }

    pub open spec fn defender_view(self) -> GameStateView {
        match self {
            GameVariant::Tablut(_, d, _) => d@,
            GameVariant::Hnefatafl(_, d, _) => d@,
            GameVariant::Brandubh(_, d, _) => d@,
        }
    }

    pub open spec fn mode_spec(self) -> GameMode {
        match self {
            GameVariant::Tablut(_, _, m) => m,
            GameVariant::Hnefatafl(_, _, m) => m,
            GameVariant::Brandubh(_, _, m) => m,
        }
    }

    pub open spec fn variant_of(self) -> Variant {
        match self {
            GameVariant::Tablut(_, _, _) => Variant::Tablut,
            GameVariant::Hnefatafl(_, _, _) => Variant::Hnefatafl,
            GameVariant::Brandubh(_, _, _) => Variant::Brandubh,
        }
    }

    pub open spec fn env_id(self) -> int {
        self.attacker_view().id
    }

    /// The envelope's invariant: a well-formed state, mirrored exactly in
    /// the second view, of the variant the tag names.
    pub open spec fn env_wf(self) -> bool {
        wf(self.attacker_view()) && self.attacker_view() == self.defender_view()
            && self.attacker_view().variant == self.variant_of()
    }

    /// The match's identifier.
    pub fn id(&self) -> (id: usize)
        ensures
            id as int == self.env_id(),
    {
        match self {
            GameVariant::Tablut(a, _, _) => a.id,
            GameVariant::Hnefatafl(a, _, _) => a.id,
            GameVariant::Brandubh(a, _, _) => a.id,
        }
    }

    /// The match's mode.
    pub fn mode(&self) -> (m: GameMode)
        ensures
            m == self.mode_spec(),
    {
        match self {
            GameVariant::Tablut(_, _, m) => *m,
            GameVariant::Hnefatafl(_, _, m) => *m,
            GameVariant::Brandubh(_, _, m) => *m,
        }
    }

    /// Route one click from a session with the given role into the match:
    /// police turn ownership, advance both mirrored views, and decide the
    /// fan-out. The rendering handed to the inactive side of an online
    /// match never carries a selection or possible-move overlay.
    pub fn apply_click(&mut self, role: Role, row: usize, col: usize) -> (outcome: ClickOutcome)
        requires
            old(self).env_wf(),
        ensures
            final(self).env_wf(),
            click_transition(*old(self), *final(self), role, row as int, col as int, outcome),
    {
        match self {
            GameVariant::Tablut(a, d, mode) => apply_click_states(a, d, *mode, role, row, col),
            GameVariant::Hnefatafl(a, d, mode) => apply_click_states(a, d, *mode, role, row, col),
            GameVariant::Brandubh(a, d, mode) => apply_click_states(a, d, *mode, role, row, col),
        }
    }
}

/// A copy of a board.
fn clone_board(b: &Vec<Vec<Cell>>) -> (out: Vec<Vec<Cell>>)
    ensures
        out.deep_view() == b.deep_view(),
{
    let rows = b.len();
    let mut out: Vec<Vec<Cell>> = Vec::new();
    let mut i: usize = 0;
    while i < rows
        invariant
            i <= rows,
            rows == b@.len(),
            out@.len() == i,
            forall|r0: int| 0 <= r0 < i ==> (#[trigger] out@[r0])@ =~= b.deep_view()[r0],
        decreases rows - i,
    {
        let cols = b[i].len();
        let mut row: Vec<Cell> = Vec::new();
        let mut j: usize = 0;
        proof {
            assert(b.deep_view()[i as int].len() == b@[i as int]@.len());
        }
        while j < cols
            invariant
                j <= cols,
                i < b@.len(),
                cols == b@[i as int]@.len(),
                row@.len() == j,
                forall|c0: int| 0 <= c0 < j ==> row@[c0] == b.deep_view()[i as int][c0],
            decreases cols - j,
        {
            let cell = b[i][j];
            row.push(cell);
            j = j + 1;
        }
        proof {
            assert(row@ =~= b.deep_view()[i as int]);
        }
        out.push(row);
        i = i + 1;
    }
    proof {
        assert(out.deep_view() =~~= b.deep_view());
    }
    out
}

fn apply_click_states(
    a: &mut GameState,
    d: &mut GameState,
    mode: GameMode,
    role: Role,
    row: usize,
    col: usize,
) -> (outcome: ClickOutcome)
    requires
        wf(old(a)@),
        old(a)@ == old(d)@,
    ensures
        wf(final(a)@),
        final(a)@ == final(d)@,
        !role_matches(role, old(a)@.current_turn) ==> final(a)@ == old(a)@ && final(d)@ == old(d)@
            && outcome is NotYourTurn,
        role_matches(role, old(a)@.current_turn) ==> ({
            let s2 = spec_process_click(old(a)@, row as int, col as int).0;
            let e = spec_process_click(old(a)@, row as int, col as int).1;
            let n = dim_of(s2.variant);
            final(a)@ == s2 && final(d)@ == s2 && (match outcome {
                ClickOutcome::NotYourTurn => false,
                ClickOutcome::Rejected { board, message, error } => e == Some(error)
                    && board.deep_view() == s2.board && message@ == s2.message,
                ClickOutcome::BroadcastAll { board, message } => e is None && (mode
                    == GameMode::Local || s2.move_done) && board.deep_view() == s2.board
                    && message@ == s2.message,
                ClickOutcome::ActiveOnly { board, others_board, message } => e is None && mode
                    == GameMode::Online && !s2.move_done && board.deep_view() == s2.board
                    && others_board.deep_view() == strip_overlay(s2.board) && overlay_clear(
                    others_board.deep_view(),
                    n,
                ) && message@ == s2.message,
            })
        }),
{
    let turn = a.current_turn;
    let allowed = match role {
        Role::Local => true,
        Role::Attacker => turn == Side::Attacker,
        Role::Defender => turn == Side::Defender,
    };
    if !allowed {
        return ClickOutcome::NotYourTurn;
    }
    // Advance the active view first, then keep the mirror in lockstep.
    let result = if role == Role::Defender {
        let r1 = d.process_click(row, col);
        let _r2 = a.process_click(row, col);
        r1
    } else {
        let r1 = a.process_click(row, col);
        let _r2 = d.process_click(row, col);
        r1
    };
    let board = clone_board(&a.board);
    let message = a.message.clone();
    match result {
        Err(e) => ClickOutcome::Rejected { board, message, error: e },
        Ok(_) => {
            if mode == GameMode::Local || a.move_done {
                ClickOutcome::BroadcastAll { board, message }
            } else {
                let others_board = stripped_board(&a.board);
                proof {
                    crate::rules::lemma_strip_shape(a@.board, dim_of(a@.variant));
                }
                ClickOutcome::ActiveOnly { board, others_board, message }
            }
        },
    }
}

} // verus!

//! The executable game engine: the mutable match state, the programmatic
//! move interface, capture resolution, win detection, and the click-driven
//! interaction state machine. Every public operation is proved equal to
//! its functional specification in [`crate::rules`].

use vstd::prelude::*;
use vstd::string::StringExecFns;
use crate::cells::{Cell, CellType, GameError, Phase, Side, SpecialCell, Variant, Winner, side_of};
use crate::setup::{board_dim, dim_of, in_bounds, initial_board, new_board};
use crate::rules::{
    GameStateView, apply_captures, board_square, can_move, core_wf, do_move, enemy_piece,
    fixtures_ok, has_king_at, hostile_to_king, is_captured_at, king_captured, king_escaped,
    king_surrounded_at, lemma_make_move_wf, lemma_move_preserves_core, lemma_process_click_wf,
    mark_selection, move_error, mover_side, overlay_clear, path_clear, spec_make_move,
    spec_process_click, strip_overlay, strip_overlay_cell, turn_message, unique_king, wf,
    win_message, winner_after,
};

verus! {

/// The authoritative state of one match.
pub struct GameState {
    pub id: usize,
    pub title: String,
    pub variant: Variant,
    pub board: Vec<Vec<Cell>>,
    pub current_turn: Side,
    pub click_phase: Phase,
    pub source: (usize, usize),
    pub game_over: bool,
    pub winner: Option<Winner>,
    pub message: String,
    pub move_done: bool,
}

impl View for GameState {
    type V = GameStateView;

    open spec fn view(&self) -> GameStateView {
        GameStateView {
            id: self.id as int,
            variant: self.variant,
            title: self.title@,
            board: self.board.deep_view(),
            current_turn: self.current_turn,
            click_phase: self.click_phase,
            source: (self.source.0 as int, self.source.1 as int),
            game_over: self.game_over,
            winner: self.winner,
            message: self.message@,
            move_done: self.move_done,
        }
    }
}

pub open spec fn title_of(v: Variant) -> Seq<char> {
    match v {
        Variant::Brandubh => "Brandubh"@,
        Variant::Tablut => "Tablut"@,
        Variant::Hnefatafl => "Hnefatafl"@,
    }
}

/// The state of a freshly created match: initial board, attackers to
/// move, no selection, no winner.
pub open spec fn spec_new(v: Variant, id: int) -> GameStateView {
    GameStateView {
        id: id,
        variant: v,
        title: title_of(v),
        board: initial_board(v),
        current_turn: Side::Attacker,
        click_phase: Phase::AwaitSource,
        source: (0, 0),
        game_over: false,
        winner: Option::None,
        message: turn_message(Side::Attacker),
        move_done: false,
    }
}

/// A fresh match satisfies every invariant.
pub proof fn lemma_new_wf(v: Variant, id: int)
    ensures
        wf(spec_new(v, id)),
{
    let n = dim_of(v);
    let b = initial_board(v);
    let mid = (n - 1) / 2;
    assert(has_king_at(b, mid, mid));
    assert forall|r: int, c: int|
        in_bounds(n, r, c) && #[trigger] has_king_at(b, r, c) implies r == mid && c == mid by {}
}

// ---------------------------------------------------------------------------
// Cell access helpers
// ---------------------------------------------------------------------------

fn get_cell(b: &Vec<Vec<Cell>>, r: usize, c: usize) -> (cell: Cell)
    requires
        r < b.deep_view().len(),
        c < b.deep_view()[r as int].len(),
    ensures
        cell == b.deep_view()[r as int][c as int],
{
    proof {
        assert(b.deep_view().len() == b@.len());
        assert(b.deep_view()[r as int].len() == b@[r as int]@.len());
    }
    b[r][c]
}

fn set_cell(b: &mut Vec<Vec<Cell>>, r: usize, c: usize, cell: Cell)
    requires
        r < old(b)@.len(),
        c < old(b)@[r as int]@.len(),
    ensures
        final(b).deep_view() == old(b).deep_view().update(
            r as int,
            old(b).deep_view()[r as int].update(c as int, cell),
        ),
        final(b)@.len() == old(b)@.len(),
        forall|i: int|
            0 <= i < final(b)@.len() ==> (#[trigger] final(b)@[i])@.len() == old(b)@[i]@.len(),
{
    let row: &mut Vec<Cell> = &mut b[r];
    row[c] = cell;
    proof {
        assert(b.deep_view() =~~= old(b).deep_view().update(
            r as int,
            old(b).deep_view()[r as int].update(c as int, cell),
        ));
    }
}

fn side_of_piece(t: CellType) -> (s: Option<Side>)
    ensures
        s == side_of(t),
{
    match t {
        CellType::Empty => Option::None,
        CellType::Attacker => Some(Side::Attacker),
        CellType::Defender => Some(Side::Defender),
        CellType::King => Some(Side::Defender),
    }
}

// ---------------------------------------------------------------------------
// Movement helpers
// ---------------------------------------------------------------------------

/// Walk the squares strictly between source and target.
fn is_path_clear(b: &Vec<Vec<Cell>>, n: usize, fr: usize, fc: usize, tr: usize, tc: usize, king: bool) -> (r: bool)
    requires
        board_square(b.deep_view(), n as int),
        fr < n,
        fc < n,
        tr < n,
        tc < n,
        fr == tr || fc == tc,
    ensures
        r == path_clear(b.deep_view(), fr as int, fc as int, tr as int, tc as int, king),
{
    let bv = Ghost(b.deep_view());
    if fr == tr {
        let lo = if fc < tc { fc } else { tc };
        let hi = if fc < tc { tc } else { fc };
        let mut c = lo + 1;
        let mut ok = true;
        while c < hi
            invariant
                lo < c <= hi || (lo + 1 > hi && c == lo + 1),
                hi < n,
                fr < n,
                board_square(bv@, n as int),
                bv@ == b.deep_view(),
                ok == (forall|x: int|
                    lo < x < c ==> (#[trigger] bv@[fr as int][x]).cell_type == CellType::Empty && (
                    king || !bv@[fr as int][x].is_throne)),
            decreases hi - c,
        {
            let cell = get_cell(b, fr, c);
            if !(cell.cell_type == CellType::Empty && (king || !cell.is_throne)) {
                ok = false;
            }
            c = c + 1;
        }
        ok
    } else {
        let lo = if fr < tr { fr } else { tr };
        let hi = if fr < tr { tr } else { fr };
        let mut r0 = lo + 1;
        let mut ok = true;
        while r0 < hi
            invariant
                lo < r0 <= hi || (lo + 1 > hi && r0 == lo + 1),
                hi < n,
                fc < n,
                board_square(bv@, n as int),
                bv@ == b.deep_view(),
                ok == (forall|x: int|
                    lo < x < r0 ==> (#[trigger] bv@[x][fc as int]).cell_type == CellType::Empty && (
                    king || !bv@[x][fc as int].is_throne)),
            decreases hi - r0,
        {
            let cell = get_cell(b, r0, fc);
            if !(cell.cell_type == CellType::Empty && (king || !cell.is_throne)) {
                ok = false;
            }
            r0 = r0 + 1;
        }
        ok
    }
}

// ---------------------------------------------------------------------------
// Whole-board rebuilds
// ---------------------------------------------------------------------------

/// A copy of the board with every transient overlay cleared.
pub(crate) fn stripped_board(b: &Vec<Vec<Cell>>) -> (r: Vec<Vec<Cell>>)
    ensures
        r.deep_view() == strip_overlay(b.deep_view()),
{
    let rows = b.len();
    let mut out: Vec<Vec<Cell>> = Vec::new();
    let mut i: usize = 0;
    proof {
        assert(b.deep_view().len() == b@.len());
    }
    while i < rows
        invariant
            i <= rows,
            rows == b@.len(),
            out@.len() == i,
            forall|r0: int| 0 <= r0 < i ==> (#[trigger] out@[r0])@ =~= strip_overlay(b.deep_view())[r0],
        decreases rows - i,
    {
        let cols = b[i].len();
        let mut row: Vec<Cell> = Vec::new();
        let mut j: usize = 0;
        proof {
            assert(b.deep_view()[i as int].len() == b@[i as int]@.len());
        }
        while j < cols
            invariant
                j <= cols,
                i < b@.len(),
                cols == b@[i as int]@.len(),
                row@.len() == j,
                forall|c0: int|
                    0 <= c0 < j ==> row@[c0] == strip_overlay_cell(
                        #[trigger] b.deep_view()[i as int][c0],
                    ),
            decreases cols - j,
        {
            let cell = get_cell(b, i, j);
            row.push(
                Cell { is_selected: false, is_possible_move: false, ..cell },
            );
            j = j + 1;
        }
        proof {
            assert(row@ =~= strip_overlay(b.deep_view())[i as int]);
        }
        out.push(row);
        i = i + 1;
    }
    proof {
        assert(out.deep_view() =~~= strip_overlay(b.deep_view()));
    }
    out
}

/// A copy of the board as rendered right after selecting `(sr, sc)`: the
/// source highlighted and every legal destination marked.
fn marked_board(b: &Vec<Vec<Cell>>, n: usize, sr: usize, sc: usize) -> (r: Vec<Vec<Cell>>)
    requires
        board_square(b.deep_view(), n as int),
        sr < n,
        sc < n,
    ensures
        r.deep_view() == mark_selection(b.deep_view(), n as int, sr as int, sc as int),
{
    let mut out: Vec<Vec<Cell>> = Vec::new();
    let mut i: usize = 0;
    let ghost marked = mark_selection(b.deep_view(), n as int, sr as int, sc as int);
    proof {
        assert(b.deep_view().len() == b@.len());
    }
    while i < n
        invariant
            i <= n,
            n == b@.len(),
            board_square(b.deep_view(), n as int),
            sr < n,
            sc < n,
            marked == mark_selection(b.deep_view(), n as int, sr as int, sc as int),
            out@.len() == i,
            forall|r0: int| 0 <= r0 < i ==> (#[trigger] out@[r0])@ =~= marked[r0],
        decreases n - i,
    {
        let mut row: Vec<Cell> = Vec::new();
        let mut j: usize = 0;
        proof {
            assert(b.deep_view()[i as int].len() == b@[i as int]@.len());
        }
        while j < n
            invariant
                j <= n,
                i < n,
                n == b@.len(),
                board_square(b.deep_view(), n as int),
                sr < n,
                sc < n,
                marked == mark_selection(b.deep_view(), n as int, sr as int, sc as int),
                row@.len() == j,
                forall|c0: int| 0 <= c0 < j ==> row@[c0] == marked[i as int][c0],
            decreases n - j,
        {
            let cell = get_cell(b, i, j);
            let possible = can_move_to(b, n, sr, sc, i, j);
            row.push(
                Cell {
                    is_selected: i == sr && j == sc,
                    is_possible_move: possible,
                    ..cell
                },
            );
            j = j + 1;
        }
        proof {
            assert(row@ =~= marked[i as int]);
        }
        out.push(row);
        i = i + 1;
    }
    proof {
        assert(out.deep_view() =~~= marked);
    }
    out
}

/// Whether the piece on `(fr, fc)` may legally move to `(tr, tc)`.
fn can_move_to(b: &Vec<Vec<Cell>>, n: usize, fr: usize, fc: usize, tr: usize, tc: usize) -> (r: bool)
    requires
        board_square(b.deep_view(), n as int),
        fr < n,
        fc < n,
    ensures
        r == can_move(b.deep_view(), n as int, fr as int, fc as int, tr as int, tc as int),
{
    if tr >= n || tc >= n {
        return false;
    }
    if !((fr == tr || fc == tc) && !(fr == tr && fc == tc)) {
        return false;
    }
    let from_cell = get_cell(b, fr, fc);
    let king = from_cell.cell_type == CellType::King;
    let target = get_cell(b, tr, tc);
    if target.cell_type != CellType::Empty {
        return false;
    }
    if !king && (target.is_corner || target.is_throne) {
        return false;
    }
    is_path_clear(b, n, fr, fc, tr, tc, king)
}

fn is_enemy(t: CellType, mover: Side) -> (r: bool)
    ensures
        r == enemy_piece(t, mover),
{
    match side_of_piece(t) {
        Some(s) => s == mover.opposite() && t != CellType::King,
        Option::None => false,
    }
}

fn is_assist(cell: Cell, mover: Side) -> (r: bool)
    ensures
        r == (side_of(cell.cell_type) == Some(mover) || cell.is_corner || (cell.is_throne
            && cell.cell_type == CellType::Empty)),
{
    let friendly = match side_of_piece(cell.cell_type) {
        Some(s) => s == mover,
        Option::None => false,
    };
    friendly || cell.is_corner || (cell.is_throne && cell.cell_type == CellType::Empty)
}

fn win_text(w: Winner) -> (r: String)
    ensures
        r@ == win_message(w),
{
    match w {
        Winner::Attackers => String::from_str("Attacker wins!"),
        Winner::Defenders => String::from_str("Defender wins!"),
        Winner::KingEscaped => String::from_str("King wins!"),
    }
}

fn turn_text(s: Side) -> (r: String)
    ensures
        r@ == turn_message(s),
{
    match s {
        Side::Attacker => String::from_str("Attacker's turn"),
        Side::Defender => String::from_str("Defender's turn"),
    }
}

impl GameState {
    /// Create a new match of the given variant under the given identifier.
    pub fn new(variant: Variant, id: usize) -> (s: GameState)
        ensures
            s@ == spec_new(variant, id as int),
            wf(s@),
    {
        let board = new_board(variant);
        let title = match variant {
            Variant::Brandubh => String::from_str("Brandubh"),
            Variant::Tablut => String::from_str("Tablut"),
            Variant::Hnefatafl => String::from_str("Hnefatafl"),
        };
        let s = GameState {
            id,
            title,
            variant,
            board,
            current_turn: Side::Attacker,
            click_phase: Phase::AwaitSource,
            source: (0, 0),
            game_over: false,
            winner: Option::None,
            message: String::from_str("Attacker's turn"),
            move_done: false,
        };
        proof {
            lemma_new_wf(variant, id as int);
            assert(s@ =~~= spec_new(variant, id as int));
        }
        s
    }

    /// Where the king stands. There is exactly one on a well-formed board.
    fn find_king(&self) -> (p: (usize, usize))
        requires
            board_square(self@.board, dim_of(self.variant)),
            unique_king(self@.board, dim_of(self.variant)),
        ensures
            in_bounds(dim_of(self.variant), p.0 as int, p.1 as int),
            has_king_at(self@.board, p.0 as int, p.1 as int),
    {
        let n = board_dim(self.variant);
        let ghost bv = self@.board;
        let mut r: usize = 0;
        while r < n
            invariant
                r <= n,
                n == dim_of(self.variant),
                bv == self@.board,
                board_square(bv, n as int),
                unique_king(bv, n as int),
                forall|i: int, j: int|
                    0 <= i < r && 0 <= j < n ==> !has_king_at(bv, i, j),
            decreases n - r,
        {
            let mut c: usize = 0;
            while c < n
                invariant
                    c <= n,
                    r < n,
                    n == dim_of(self.variant),
                    bv == self@.board,
                    board_square(bv, n as int),
                    forall|i: int, j: int|
                        0 <= i < r && 0 <= j < n ==> !has_king_at(bv, i, j),
                    forall|j: int| 0 <= j < c ==> !has_king_at(bv, r as int, j),
                decreases n - c,
            {
                if get_cell(&self.board, r, c).cell_type == CellType::King {
                    return (r, c);
                }
                c = c + 1;
            }
            r = r + 1;
        }
        // Unreachable: a well-formed board holds a king.
        proof {
            assert(false);
        }
        (0, 0)
    }

    /// Adjudicate the board after a move: a king on a corner wins for the
    /// defenders; a king enclosed on all four sides wins for the attackers.
    fn check_win_condition(&self) -> (w: Option<Winner>)
        requires
            board_square(self@.board, dim_of(self.variant)),
            unique_king(self@.board, dim_of(self.variant)),
            dim_of(self.variant) >= 3,
        ensures
            w == winner_after(self@.board, dim_of(self.variant)),
    {
        let n = board_dim(self.variant);
        let last = n - 1;
        if get_cell(&self.board, 0, 0).cell_type == CellType::King || get_cell(
            &self.board,
            0,
            last,
        ).cell_type == CellType::King || get_cell(&self.board, last, 0).cell_type == CellType::King
            || get_cell(&self.board, last, last).cell_type == CellType::King {
            return Some(Winner::KingEscaped);
        }
        let king_pos = self.find_king();
        let kr = king_pos.0;
        let kc = king_pos.1;
        let up = kr >= 1 && self.hostile_at(kr - 1, kc);
        let down = kr + 1 < n && self.hostile_at(kr + 1, kc);
        let left = kc >= 1 && self.hostile_at(kr, kc - 1);
        let right = kc + 1 < n && self.hostile_at(kr, kc + 1);
        if up && down && left && right {
            proof {
                assert(king_surrounded_at(self@.board, n as int, kr as int, kc as int));
                assert(king_captured(self@.board, n as int));
            }
            Some(Winner::Attackers)
        } else {
            proof {
                if king_captured(self@.board, n as int) {
                    let (wr, wc) = choose|wr: int, wc: int|
                        in_bounds(n as int, wr, wc) && #[trigger] has_king_at(self@.board, wr, wc)
                            && king_surrounded_at(self@.board, n as int, wr, wc);
                    assert(wr == kr as int && wc == kc as int);
                }
            }
            Option::None
        }
    }

    /// A square hostile to the king: an attacker, a corner, or the throne.
    fn hostile_at(&self, r: usize, c: usize) -> (h: bool)
        requires
            board_square(self@.board, dim_of(self.variant)),
            r < dim_of(self.variant),
            c < dim_of(self.variant),
        ensures
            h == hostile_to_king(self@.board, dim_of(self.variant), r as int, c as int),
    {
        let cell = get_cell(&self.board, r, c);
        cell.cell_type == CellType::Attacker || cell.is_corner || cell.is_throne
    }

    /// Resolve the sandwich captures triggered by the piece that just
    /// arrived on `pos`: each orthogonal enemy neighbor flanked against a
    /// friendly piece, a corner, or the empty throne is removed. A
    /// sandwich never takes the king: the one king on the board stays.
    pub fn check_captures(&mut self, pos: (usize, usize)) -> (r: Result<(), GameError>)
        requires
            board_square(old(self)@.board, dim_of(old(self).variant)),
            in_bounds(dim_of(old(self).variant), pos.0 as int, pos.1 as int),
        ensures
            r is Ok,
            final(self)@ == (GameStateView {
                board: apply_captures(
                    old(self)@.board,
                    dim_of(old(self).variant),
                    pos.0 as int,
                    pos.1 as int,
                ),
                ..old(self)@
            }),
            forall|r0: int, c0: int|
                in_bounds(dim_of(old(self).variant), r0, c0) ==> (has_king_at(
                    final(self)@.board,
                    r0,
                    c0,
                ) == has_king_at(old(self)@.board, r0, c0)),
            unique_king(old(self)@.board, dim_of(old(self).variant)) ==> unique_king(
                final(self)@.board,
                dim_of(old(self).variant),
            ),
    {
        let n = board_dim(self.variant);
        let mover = match side_of_piece(get_cell(&self.board, pos.0, pos.1).cell_type) {
            Some(s) => s,
            Option::None => Side::Attacker,
        };
        let nb = captured_board(&self.board, n, pos.0, pos.1, mover);
        self.board = nb;
        proof {
            assert(self@ =~~= (GameStateView {
                board: apply_captures(
                    old(self)@.board,
                    dim_of(old(self).variant),
                    pos.0 as int,
                    pos.1 as int,
                ),
                ..old(self)@
            }));
            crate::rules::lemma_captures_preserve_kings(
                old(self)@.board,
                dim_of(old(self).variant),
                pos.0 as int,
                pos.1 as int,
            );
        }
        Ok(())
    }
}

/// Whether the piece on `(r, c)` is taken by the arrival of `mover`'s
/// piece on `(tr, tc)`.
fn captured_at_here(
    b: &Vec<Vec<Cell>>,
    n: usize,
    tr: usize,
    tc: usize,
    mover: Side,
    r: usize,
    c: usize,
) -> (res: bool)
    requires
        board_square(b.deep_view(), n as int),
        tr < n,
        tc < n,
        r < n,
        c < n,
        mover == mover_side(b.deep_view(), tr as int, tc as int),
    ensures
        res == is_captured_at(
            b.deep_view(),
            n as int,
            tr as int,
            tc as int,
            r as int,
            c as int,
        ),
{
    if r + 1 == tr && c == tc {
        let enemy = is_enemy(get_cell(b, r, c).cell_type, mover);
        let assist_ok = tr >= 2 && is_assist(get_cell(b, tr - 2, tc), mover);
        enemy && assist_ok
    } else if tr + 1 == r && c == tc {
        let enemy = is_enemy(get_cell(b, r, c).cell_type, mover);
        let assist_ok = tr + 2 < n && is_assist(get_cell(b, tr + 2, tc), mover);
        enemy && assist_ok
    } else if r == tr && c + 1 == tc {
        let enemy = is_enemy(get_cell(b, r, c).cell_type, mover);
        let assist_ok = tc >= 2 && is_assist(get_cell(b, tr, tc - 2), mover);
        enemy && assist_ok
    } else if r == tr && tc + 1 == c {
        let enemy = is_enemy(get_cell(b, r, c).cell_type, mover);
        let assist_ok = tc + 2 < n && is_assist(get_cell(b, tr, tc + 2), mover);
        enemy && assist_ok
    } else {
        false
    }
}

/// A copy of the board with every capture around `(tr, tc)` resolved.
fn captured_board(b: &Vec<Vec<Cell>>, n: usize, tr: usize, tc: usize, mover: Side) -> (out: Vec<
    Vec<Cell>,
>)
    requires
        board_square(b.deep_view(), n as int),
        tr < n,
        tc < n,
        mover == mover_side(b.deep_view(), tr as int, tc as int),
    ensures
        out.deep_view() == apply_captures(b.deep_view(), n as int, tr as int, tc as int),
{
    let ghost target = apply_captures(b.deep_view(), n as int, tr as int, tc as int);
    let mut out: Vec<Vec<Cell>> = Vec::new();
    let mut i: usize = 0;
    proof {
        assert(b.deep_view().len() == b@.len());
    }
    while i < n
        invariant
            i <= n,
            n == b@.len(),
            board_square(b.deep_view(), n as int),
            tr < n,
            tc < n,
            mover == mover_side(b.deep_view(), tr as int, tc as int),
            target == apply_captures(b.deep_view(), n as int, tr as int, tc as int),
            out@.len() == i,
            forall|r0: int| 0 <= r0 < i ==> (#[trigger] out@[r0])@ =~= target[r0],
        decreases n - i,
    {
        let mut row: Vec<Cell> = Vec::new();
        let mut j: usize = 0;
        while j < n
            invariant
                j <= n,
                i < n,
                n == b@.len(),
                board_square(b.deep_view(), n as int),
                tr < n,
                tc < n,
                mover == mover_side(b.deep_view(), tr as int, tc as int),
                target == apply_captures(b.deep_view(), n as int, tr as int, tc as int),
                row@.len() == j,
                forall|c0: int| 0 <= c0 < j ==> row@[c0] == target[i as int][c0],
            decreases n - j,
        {
            let cell = get_cell(b, i, j);
            if captured_at_here(b, n, tr, tc, mover, i, j) {
                row.push(
                    Cell {
                        cell_type: CellType::Empty,
                        is_corner: cell.is_corner,
                        is_throne: cell.is_throne,
                        is_selected: false,
                        is_possible_move: false,
                    },
                );
            } else {
                row.push(cell);
            }
            j = j + 1;
        }
        proof {
            assert(row@ =~= target[i as int]);
        }
        out.push(row);
        i = i + 1;
    }
    proof {
        assert(out.deep_view() =~~= target);
    }
    out
}

impl GameState {
    /// Whether the given position lies on the board.
    fn is_within_bounds(&self, pos: (usize, usize)) -> (b: bool)
        ensures
            b == in_bounds(self.board@.len() as int, pos.0 as int, pos.1 as int),
    {
        let size = self.board.len();
        pos.0 < size && pos.1 < size
    }

    /// Attempt the move of the piece on `from` to `to`: validate it,
    /// slide the piece, resolve captures, adjudicate the result, and flip
    /// the turn. On failure nothing changes and the error says why.
    pub fn make_move(&mut self, from: (usize, usize), to: (usize, usize)) -> (r: Result<
        (),
        GameError,
    >)
        requires
            wf(old(self)@),
        ensures
            final(self)@ == spec_make_move(
                old(self)@,
                from.0 as int,
                from.1 as int,
                to.0 as int,
                to.1 as int,
            ).0,
            r == crate::rules::as_result(
                spec_make_move(old(self)@, from.0 as int, from.1 as int, to.0 as int, to.1 as int).1,
            ),
            core_wf(final(self)@),
            r is Ok ==> overlay_clear(final(self)@.board, dim_of(final(self).variant)),
    {
        proof {
            lemma_make_move_wf(
                old(self)@,
                from.0 as int,
                from.1 as int,
                to.0 as int,
                to.1 as int,
            );
        }
        let ghost s0 = self@;
        let n = board_dim(self.variant);
        let fr = from.0;
        let fc = from.1;
        let tr = to.0;
        let tc = to.1;
        if self.game_over {
            return Err(GameError::GameOver);
        }
        proof {
            assert(self.board@.len() == n);
        }
        if !self.is_within_bounds(from) || !self.is_within_bounds(to) {
            return Err(GameError::InvalidCoordinate);
        }
        proof {
            assert(fr < n && fc < n && tr < n && tc < n);
        }
        if !((fr == tr || fc == tc) && !(fr == tr && fc == tc)) {
            return Err(GameError::NonOrthogonalMove);
        }
        let from_cell = get_cell(&self.board, fr, fc);
        if from_cell.cell_type == CellType::Empty {
            return Err(GameError::NoPieceToMove);
        }
        let side = match side_of_piece(from_cell.cell_type) {
            Some(s) => s,
            Option::None => Side::Attacker,
        };
        if side != self.current_turn {
            return Err(GameError::NotYourPiece(self.current_turn));
        }
        let king = from_cell.cell_type == CellType::King;
        let to_cell = get_cell(&self.board, tr, tc);
        if to_cell.is_corner && !king {
            return Err(GameError::ForbiddenDestination(SpecialCell::Corner));
        }
        if to_cell.is_throne && !king {
            return Err(GameError::ForbiddenDestination(SpecialCell::Throne));
        }
        if to_cell.cell_type != CellType::Empty {
            return Err(GameError::BlockedPath);
        }
        if !is_path_clear(&self.board, n, fr, fc, tr, tc, king) {
            return Err(GameError::BlockedPath);
        }
        proof {
            assert(move_error(s0, fr as int, fc as int, tr as int, tc as int) is None);
        }
        // The move is legal: clear the overlays and slide the piece.
        let stripped = stripped_board(&self.board);
        self.board = stripped;
        proof {
            assert(self.board@.len() == n);
            assert(self.board.deep_view()[fr as int] == self.board@[fr as int].deep_view());
            assert(self.board.deep_view()[tr as int] == self.board@[tr as int].deep_view());
            assert(self.board@[fr as int]@.len() == n);
            assert(self.board@[tr as int]@.len() == n);
        }
        set_cell(
            &mut self.board,
            fr,
            fc,
            Cell {
                cell_type: CellType::Empty,
                is_corner: from_cell.is_corner,
                is_throne: from_cell.is_throne,
                is_selected: false,
                is_possible_move: false,
            },
        );
        set_cell(
            &mut self.board,
            tr,
            tc,
            Cell {
                cell_type: from_cell.cell_type,
                is_corner: to_cell.is_corner,
                is_throne: to_cell.is_throne,
                is_selected: false,
                is_possible_move: false,
            },
        );
        proof {
            assert(self@.board =~~= do_move(s0.board, fr as int, fc as int, tr as int, tc as int));
        }
        let _cap = self.check_captures(to);
        proof {
            lemma_move_preserves_core(s0.board, n as int, fr as int, fc as int, tr as int, tc as int);
        }
        let outcome = self.check_win_condition();
        match outcome {
            Some(w) => {
                self.game_over = true;
                self.winner = Some(w);
                self.message = win_text(w);
                self.move_done = true;
            },
            Option::None => {
                self.current_turn = self.current_turn.opposite();
                self.message = turn_text(self.current_turn);
                self.move_done = true;
            },
        }
        proof {
            assert(final(self)@ =~~= spec_make_move(
                s0,
                fr as int,
                fc as int,
                tr as int,
                tc as int,
            ).0);
        }
        Ok(())
    }

    /// Advance the two-phase interaction state machine with one click:
    /// first select a piece of the side to move, then either deselect it,
    /// or name the target square and attempt the move.
    pub fn process_click(&mut self, row: usize, col: usize) -> (r: Result<(), GameError>)
        requires
            wf(old(self)@),
        ensures
            wf(final(self)@),
            final(self)@ == spec_process_click(old(self)@, row as int, col as int).0,
            r == crate::rules::as_result(
                spec_process_click(old(self)@, row as int, col as int).1,
            ),
            // The board keeps exactly one king and its fixed features.
            unique_king(final(self)@.board, dim_of(final(self).variant)),
            fixtures_ok(final(self)@.board, dim_of(final(self).variant)),
            // After a successful move every overlay is gone.
            final(self)@.move_done ==> overlay_clear(
                final(self)@.board,
                dim_of(final(self).variant),
            ),
            // After the game ended every click is rejected and the board
            // stays byte-identical.
            old(self)@.game_over ==> r is Err && final(self)@.board == old(self)@.board,
    {
        proof {
            lemma_process_click_wf(old(self)@, row as int, col as int);
        }
        let ghost s0 = self@;
        if self.game_over {
            self.message = GameError::GameOver.message();
            self.move_done = false;
            proof {
                assert(final(self)@ =~~= spec_process_click(s0, row as int, col as int).0);
            }
            return Err(GameError::GameOver);
        }
        let n = board_dim(self.variant);
        if row >= n || col >= n {
            let sb = stripped_board(&self.board);
            self.board = sb;
            self.click_phase = Phase::AwaitSource;
            self.message = GameError::InvalidCoordinate.message();
            self.move_done = false;
            proof {
                assert(final(self)@ =~~= spec_process_click(s0, row as int, col as int).0);
            }
            return Err(GameError::InvalidCoordinate);
        }
        if self.click_phase == Phase::AwaitSource {
            let cell = get_cell(&self.board, row, col);
            if cell.cell_type == CellType::Empty || cell.is_corner {
                self.message = GameError::NoPieceToMove.message();
                self.move_done = false;
                proof {
                    assert(final(self)@ =~~= spec_process_click(s0, row as int, col as int).0);
                }
                return Err(GameError::NoPieceToMove);
            }
            let own = match side_of_piece(cell.cell_type) {
                Some(s) => s == self.current_turn,
                Option::None => false,
            };
            if !own {
                let e = GameError::NotYourPiece(self.current_turn);
                self.message = e.message();
                self.move_done = false;
                proof {
                    assert(final(self)@ =~~= spec_process_click(s0, row as int, col as int).0);
                }
                return Err(e);
            }
            let mb = marked_board(&self.board, n, row, col);
            self.board = mb;
            self.click_phase = Phase::AwaitTarget;
            self.source = (row, col);
            self.move_done = false;
            proof {
                assert(final(self)@ =~~= spec_process_click(s0, row as int, col as int).0);
            }
            Ok(())
        } else {
            let sr = self.source.0;
            let sc = self.source.1;
            if row == sr && col == sc {
                let sb = stripped_board(&self.board);
                self.board = sb;
                self.click_phase = Phase::AwaitSource;
                self.move_done = false;
                proof {
                    assert(final(self)@ =~~= spec_process_click(s0, row as int, col as int).0);
                }
                return Ok(());
            }
            let target = get_cell(&self.board, row, col);
            let src = get_cell(&self.board, sr, sc);
            if target.cell_type != CellType::Empty {
                return self.reject_target(GameError::OccupiedDestination, Ghost(s0), row, col);
            }
            if target.is_corner && src.cell_type != CellType::King {
                return self.reject_target(
                    GameError::ForbiddenDestination(SpecialCell::Corner),
                    Ghost(s0),
                    row,
                    col,
                );
            }
            if target.is_throne && src.cell_type != CellType::King {
                return self.reject_target(
                    GameError::ForbiddenDestination(SpecialCell::Throne),
                    Ghost(s0),
                    row,
                    col,
                );
            }
            let src_pos = self.source;
            let mv = self.make_move(src_pos, (row, col));
            match mv {
                Ok(_) => {
                    self.click_phase = Phase::AwaitSource;
                    proof {
                        assert(final(self)@ =~~= spec_process_click(s0, row as int, col as int).0);
                    }
                    Ok(())
                },
                Err(e) => {
                    let sb = stripped_board(&self.board);
                    self.board = sb;
                    self.click_phase = Phase::AwaitSource;
                    self.message = e.message();
                    self.move_done = false;
                    proof {
                        assert(final(self)@ =~~= spec_process_click(s0, row as int, col as int).0);
                    }
                    Err(e)
                },
            }
        }
    }

    /// A rejected second click: clear the overlays, return to awaiting a
    /// source, and surface the error.
    fn reject_target(&mut self, e: GameError, Ghost(s0): Ghost<GameStateView>, row: usize, col: usize) -> (r: Result<
        (),
        GameError,
    >)
        requires
            old(self)@ == s0,
            spec_process_click(s0, row as int, col as int) == (
                crate::rules::click_reject(s0, e),
                Some(e),
            ),
        ensures
            final(self)@ == spec_process_click(s0, row as int, col as int).0,
            r == crate::rules::as_result(spec_process_click(s0, row as int, col as int).1),
    {
        let sb = stripped_board(&self.board);
        self.board = sb;
        self.click_phase = Phase::AwaitSource;
        self.message = e.message();
        self.move_done = false;
        proof {
            assert(final(self)@ =~~= crate::rules::click_reject(s0, e));
        }
        Err(e)
    }
}

} // verus!

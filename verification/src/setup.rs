//! Board geometry and initial placement for each variant.
//!
//! Each variant defines literal coordinate sets for attacker pieces,
//! defender pieces, the king, the four corners and the central throne.

use vstd::prelude::*;
use crate::cells::{Cell, CellType, Variant};

verus! {

/// Side length of the board for a variant.
pub open spec fn dim_of(v: Variant) -> int {
    match v {
        Variant::Brandubh => 7,
        Variant::Tablut => 9,
        Variant::Hnefatafl => 11,
    }
}

/// Side length of the board for a variant.
pub fn board_dim(v: Variant) -> (n: usize)
    ensures
        n == dim_of(v),
{
    match v {
        Variant::Brandubh => 7,
        Variant::Tablut => 9,
        Variant::Hnefatafl => 11,
    }
}

/// Index of the central row and column of an odd-sized board.
pub open spec fn center(n: int) -> int {
    (n - 1) / 2
}

pub open spec fn in_bounds(n: int, r: int, c: int) -> bool {
    0 <= r < n && 0 <= c < n
}

/// The four extreme squares of the board.
pub open spec fn is_corner_pos(n: int, r: int, c: int) -> bool {
    (r == 0 || r == n - 1) && (c == 0 || c == n - 1)
}

/// The single central square.
pub open spec fn is_throne_pos(n: int, r: int, c: int) -> bool {
    r == center(n) && c == center(n)
}

/// Starting squares of the attacking side.
pub open spec fn is_attacker_start(v: Variant, r: int, c: int) -> bool {
    match v {
        Variant::Brandubh => (c == 3 && (r == 0 || r == 1 || r == 5 || r == 6)) || (r == 3 && (c
            == 0 || c == 1 || c == 5 || c == 6)),
        Variant::Tablut => (r == 0 && 3 <= c <= 5) || (r == 1 && c == 4) || (r == 8 && 3 <= c <= 5)
            || (r == 7 && c == 4) || (c == 0 && 3 <= r <= 5) || (c == 1 && r == 4) || (c == 8 && 3
            <= r <= 5) || (c == 7 && r == 4),
        Variant::Hnefatafl => (r == 0 && 3 <= c <= 7) || (r == 1 && c == 5) || (r == 10 && 3 <= c
            <= 7) || (r == 9 && c == 5) || (c == 0 && 3 <= r <= 7) || (c == 1 && r == 5) || (c
            == 10 && 3 <= r <= 7) || (c == 9 && r == 5),
    }
}

/// Starting squares of the defending side (the king not included).
pub open spec fn is_defender_start(v: Variant, r: int, c: int) -> bool {
    match v {
        Variant::Brandubh => (c == 3 && (r == 2 || r == 4)) || (r == 3 && (c == 2 || c == 4)),
        Variant::Tablut => (c == 4 && (r == 2 || r == 3 || r == 5 || r == 6)) || (r == 4 && (c == 2
            || c == 3 || c == 5 || c == 6)),
        Variant::Hnefatafl => (c == 5 && (r == 3 || r == 7)) || (r == 4 && 4 <= c <= 6) || (r == 6
            && 4 <= c <= 6) || (r == 5 && (c == 3 || c == 4 || c == 6 || c == 7)),
    }
}

/// The content of square `(r, c)` on a fresh board. The king starts on
/// the throne; the corners are empty.
pub open spec fn initial_cell(v: Variant, r: int, c: int) -> Cell {
    let n = dim_of(v);
    Cell {
        cell_type: if is_throne_pos(n, r, c) {
            CellType::King
        } else if is_attacker_start(v, r, c) {
            CellType::Attacker
        } else if is_defender_start(v, r, c) {
            CellType::Defender
        } else {
            CellType::Empty
        },
        is_corner: is_corner_pos(n, r, c),
        is_throne: is_throne_pos(n, r, c),
        is_selected: false,
        is_possible_move: false,
    }
}

/// The whole fresh board of a variant.
pub open spec fn initial_board(v: Variant) -> Seq<Seq<Cell>> {
    Seq::new(dim_of(v) as nat, |r: int| Seq::new(dim_of(v) as nat, |c: int| initial_cell(v, r, c)))
}

fn is_attacker_start_at(v: Variant, r: usize, c: usize) -> (b: bool)
    ensures
        b == is_attacker_start(v, r as int, c as int),
{
    match v {
        Variant::Brandubh => (c == 3 && (r == 0 || r == 1 || r == 5 || r == 6)) || (r == 3 && (c
            == 0 || c == 1 || c == 5 || c == 6)),
        Variant::Tablut => (r == 0 && 3 <= c && c <= 5) || (r == 1 && c == 4) || (r == 8 && 3 <= c
            && c <= 5) || (r == 7 && c == 4) || (c == 0 && 3 <= r && r <= 5) || (c == 1 && r == 4)
            || (c == 8 && 3 <= r && r <= 5) || (c == 7 && r == 4),
        Variant::Hnefatafl => (r == 0 && 3 <= c && c <= 7) || (r == 1 && c == 5) || (r == 10 && 3
            <= c && c <= 7) || (r == 9 && c == 5) || (c == 0 && 3 <= r && r <= 7) || (c == 1 && r
            == 5) || (c == 10 && 3 <= r && r <= 7) || (c == 9 && r == 5),
    }
}

fn is_defender_start_at(v: Variant, r: usize, c: usize) -> (b: bool)
    ensures
        b == is_defender_start(v, r as int, c as int),
{
    match v {
        Variant::Brandubh => (c == 3 && (r == 2 || r == 4)) || (r == 3 && (c == 2 || c == 4)),
        Variant::Tablut => (c == 4 && (r == 2 || r == 3 || r == 5 || r == 6)) || (r == 4 && (c == 2
            || c == 3 || c == 5 || c == 6)),
        Variant::Hnefatafl => (c == 5 && (r == 3 || r == 7)) || (r == 4 && 4 <= c && c <= 6) || (r
            == 6 && 4 <= c && c <= 6) || (r == 5 && (c == 3 || c == 4 || c == 6 || c == 7)),
    }
}

fn initial_cell_at(v: Variant, r: usize, c: usize) -> (cell: Cell)
    ensures
        cell == initial_cell(v, r as int, c as int),
{
    let n = board_dim(v);
    let mid = (n - 1) / 2;
    let corner = (r == 0 || r == n - 1) && (c == 0 || c == n - 1);
    let throne = r == mid && c == mid;
    let cell_type = if throne {
        CellType::King
    } else if is_attacker_start_at(v, r, c) {
        CellType::Attacker
    } else if is_defender_start_at(v, r, c) {
        CellType::Defender
    } else {
        CellType::Empty
    };
    Cell { cell_type, is_corner: corner, is_throne: throne, is_selected: false, is_possible_move: false }
}

/// Build the fresh board of a variant.
pub fn new_board(v: Variant) -> (b: Vec<Vec<Cell>>)
    ensures
        b.deep_view() == initial_board(v),
{
    let n = board_dim(v);
    let mut b: Vec<Vec<Cell>> = Vec::new();
    let mut r: usize = 0;
    while r < n
        invariant
            r <= n,
            n == dim_of(v),
            b@.len() == r,
            forall|i: int| 0 <= i < r ==> (#[trigger] b@[i])@ =~= initial_board(v)[i],
        decreases n - r,
    {
        let mut row: Vec<Cell> = Vec::new();
        let mut c: usize = 0;
        while c < n
            invariant
                c <= n,
                n == dim_of(v),
                r < n,
                row@.len() == c,
                forall|j: int| 0 <= j < c ==> row@[j] == initial_cell(v, r as int, j),
            decreases n - c,
        {
            row.push(initial_cell_at(v, r, c));
            c = c + 1;
        }
        proof {
            assert(row@ =~= initial_board(v)[r as int]);
        }
        b.push(row);
        r = r + 1;
    }
    proof {
        assert(b.deep_view() =~~= initial_board(v));
    }
    b
}

} // verus!

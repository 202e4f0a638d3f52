//! HTML rendering of a board: a thin projection of the cell grid into a
//! `<table>`, with piece classes, decorator classes for corners, the
//! throne and the transient overlays, per-cell click hooks, and 1-based
//! coordinate labels along the right and bottom margins.

use vstd::prelude::*;
use vstd::string::{StrSliceExecFns, StringExecFns};
use crate::cells::{Cell, CellType};
use crate::rules::{board_square, overlay_clear};

verus! {

/// The CSS class of a cell's occupant.
pub open spec fn class_of(t: CellType) -> Seq<char> {
    match t {
        CellType::Empty => "empty"@,
        CellType::Attacker => "attacker"@,
        CellType::Defender => "defender"@,
        CellType::King => "king"@,
    }
}

/// The inner HTML of a cell: the piece image, if any.
pub open spec fn content_of(t: CellType) -> Seq<char> {
    match t {
        CellType::Empty => ""@,
        CellType::Attacker => "<img src=\"/images/attacker.png\" alt=\"Attacker\" class=\"piece\" />"@,
        CellType::Defender => "<img src=\"/images/defender.png\" alt=\"Defender\" class=\"piece\" />"@,
        CellType::King => "<img src=\"/images/queen.png\" alt=\"King\" class=\"piece\" />"@,
    }
}

/// Decimal text of the small numbers a board needs: indices up to 10 and
/// row labels up to 11.
pub open spec fn num_seq(i: int) -> Seq<char> {
    if i == 0 {
        "0"@
    } else if i == 1 {
        "1"@
    } else if i == 2 {
        "2"@
    } else if i == 3 {
        "3"@
    } else if i == 4 {
        "4"@
    } else if i == 5 {
        "5"@
    } else if i == 6 {
        "6"@
    } else if i == 7 {
        "7"@
    } else if i == 8 {
        "8"@
    } else if i == 9 {
        "9"@
    } else if i == 10 {
        "10"@
    } else if i == 11 {
        "11"@
    } else {
        ""@
    }
}

/// The letter labelling a column: `a` for the first, onwards.
pub open spec fn letter_seq(c: int) -> Seq<char> {
    if c == 0 {
        "a"@
    } else if c == 1 {
        "b"@
    } else if c == 2 {
        "c"@
    } else if c == 3 {
        "d"@
    } else if c == 4 {
        "e"@
    } else if c == 5 {
        "f"@
    } else if c == 6 {
        "g"@
    } else if c == 7 {
        "h"@
    } else if c == 8 {
        "i"@
    } else if c == 9 {
        "j"@
    } else if c == 10 {
        "k"@
    } else {
        ""@
    }
}

/// One board square as a table cell, with its id, classes and click hook.
pub open spec fn cell_html(cell: Cell, r: int, c: int) -> Seq<char> {
    "<td id=\"cell-"@ + num_seq(r) + "-"@ + num_seq(c) + "\" class=\""@ + class_of(cell.cell_type)
        + (if cell.is_corner {
        " corner-cell"@
    } else {
        ""@
    }) + (if cell.is_throne {
        " throne-cell"@
    } else {
        ""@
    }) + (if cell.is_selected {
        " selected-cell"@
    } else {
        ""@
    }) + (if cell.is_possible_move {
        " possible-cell"@
    } else {
        ""@
    }) + "\" onclick=\"handleCellClick("@ + num_seq(r) + ", "@ + num_seq(c) + ")\">"@ + content_of(
        cell.cell_type,
    ) + "</td>"@
}

/// The borderless cell that carries a coordinate label.
pub open spec fn coord_td(label: Seq<char>) -> Seq<char> {
    "<td class=\"coordinates\" style=\"border: none;\">"@ + label + "</td>"@
}

/// The first `k` cells of a row, concatenated.
pub open spec fn row_cells_html(row: Seq<Cell>, r: int, k: int) -> Seq<char>
    decreases k,
{
    if k <= 0 {
        ""@
    } else {
        row_cells_html(row, r, k - 1) + cell_html(row[k - 1], r, k - 1)
    }
}

/// One board row, closed by its right-margin label: 1-based row numbers
/// descending from the top, so the top row of an `n`-sized board reads `n`.
pub open spec fn row_html(row: Seq<Cell>, r: int, n: int) -> Seq<char> {
    "<tr>"@ + row_cells_html(row, r, row.len() as int) + coord_td(num_seq(n - r)) + "</tr>"@
}

/// The first `k` rows of the board, concatenated.
pub open spec fn rows_html(b: Seq<Seq<Cell>>, n: int, k: int) -> Seq<char>
    decreases k,
{
    if k <= 0 {
        ""@
    } else {
        rows_html(b, n, k - 1) + row_html(b[k - 1], k - 1, n)
    }
}

/// The first `k` bottom-margin labels, concatenated: letters from `a`.
pub open spec fn footer_html(k: int) -> Seq<char>
    decreases k,
{
    if k <= 0 {
        ""@
    } else {
        footer_html(k - 1) + coord_td(letter_seq(k - 1))
    }
}

/// The whole board as an HTML table.
pub open spec fn board_html(b: Seq<Seq<Cell>>, n: int) -> Seq<char> {
    "<table>"@ + rows_html(b, n, n) + ("<tr>"@ + footer_html(n) + "</tr>"@) + "</table>"@
}

// ---------------------------------------------------------------------------
// No overlay class ever leaks into the rendering of an overlay-free board
// ---------------------------------------------------------------------------

/// The characters `a` and `b` stand side by side somewhere in `s`.
pub open spec fn has_pair(s: Seq<char>, a: char, b: char) -> bool {
    exists|i: int| 0 <= i && i + 1 < s.len() && (#[trigger] s[i]) == a && s[i + 1] == b
}

/// `p` occurs as a contiguous substring of `s`.
pub open spec fn contains_seq(s: Seq<char>, p: Seq<char>) -> bool {
    exists|i: int| 0 <= i <= s.len() - p.len() && (#[trigger] s.subrange(i, i + p.len())) == p
}

/// Gluing two pair-free texts keeps them pair-free, provided the pair
/// does not straddle the seam.
proof fn lemma_no_pair_concat(x: Seq<char>, y: Seq<char>, a: char, b: char)
    requires
        !has_pair(x, a, b),
        !has_pair(y, a, b),
        x.len() > 0 && y.len() > 0 ==> !(x[x.len() - 1] == a && y[0] == b),
    ensures
        !has_pair(x + y, a, b),
{
    assert forall|i: int| 0 <= i && i + 1 < (x + y).len() implies !((#[trigger] (x + y)[i]) == a
        && (x + y)[i + 1] == b) by {
        if i + 1 < x.len() {
            assert((x + y)[i] == x[i]);
            assert((x + y)[i + 1] == x[i + 1]);
        } else if i >= x.len() {
            assert((x + y)[i] == y[i - x.len()]);
            assert((x + y)[i + 1] == y[i + 1 - x.len()]);
        } else {
            assert((x + y)[i] == x[x.len() - 1]);
            assert((x + y)[i + 1] == y[0]);
        }
    }
}

/// The two adjacent pairs that tell the overlay classes apart from all
/// fixed text: `selected-cell` holds `ed`, `possible-cell` holds `ib`,
/// and no overlay-free chunk holds either.
spec fn clean_of_overlay_pairs(s: Seq<char>) -> bool {
    !has_pair(s, 'e', 'd') && !has_pair(s, 'i', 'b')
}

proof fn lemma_num_seq_clean(i: int)
    ensures
        clean_of_overlay_pairs(num_seq(i)),
        num_seq(i).len() > 0 ==> num_seq(i)[0] != 'd' && num_seq(i)[0] != 'b',
{
    reveal_strlit("0");
    reveal_strlit("1");
    reveal_strlit("2");
    reveal_strlit("3");
    reveal_strlit("4");
    reveal_strlit("5");
    reveal_strlit("6");
    reveal_strlit("7");
    reveal_strlit("8");
    reveal_strlit("9");
    reveal_strlit("10");
    reveal_strlit("11");
    reveal_strlit("");
}

proof fn lemma_letter_seq_clean(c: int)
    ensures
        clean_of_overlay_pairs(letter_seq(c)),
{
    reveal_strlit("a");
    reveal_strlit("b");
    reveal_strlit("c");
    reveal_strlit("d");
    reveal_strlit("e");
    reveal_strlit("f");
    reveal_strlit("g");
    reveal_strlit("h");
    reveal_strlit("i");
    reveal_strlit("j");
    reveal_strlit("k");
    reveal_strlit("");
}

proof fn lemma_class_of_clean(t: CellType)
    ensures
        clean_of_overlay_pairs(class_of(t)),
        class_of(t).len() > 0,
        class_of(t)[0] != 'b',
{
    reveal_strlit("empty");
    reveal_strlit("attacker");
    reveal_strlit("defender");
    reveal_strlit("king");
}

proof fn lemma_content_of_clean(t: CellType)
    ensures
        clean_of_overlay_pairs(content_of(t)),
        content_of(t).len() > 0 ==> content_of(t)[0] == '<',
{
    reveal_strlit("");
    reveal_strlit("<img src=\"/images/attacker.png\" alt=\"Attacker\" class=\"piece\" />");
    reveal_strlit("<img src=\"/images/defender.png\" alt=\"Defender\" class=\"piece\" />");
    reveal_strlit("<img src=\"/images/queen.png\" alt=\"King\" class=\"piece\" />");
}

/// The table cell of a square with no overlay carries neither telltale
/// pair.
proof fn lemma_cell_html_clean(cell: Cell, r: int, c: int)
    requires
        !cell.is_selected,
        !cell.is_possible_move,
    ensures
        clean_of_overlay_pairs(cell_html(cell, r, c)),
        cell_html(cell, r, c).len() > 0,
        cell_html(cell, r, c)[0] == '<',
{
    reveal_strlit("<td id=\"cell-");
    reveal_strlit("-");
    reveal_strlit("\" class=\"");
    reveal_strlit(" corner-cell");
    reveal_strlit(" throne-cell");
    reveal_strlit("\" onclick=\"handleCellClick(");
    reveal_strlit(", ");
    reveal_strlit(")\">");
    reveal_strlit("</td>");
    reveal_strlit("");
    lemma_num_seq_clean(r);
    lemma_num_seq_clean(c);
    lemma_class_of_clean(cell.cell_type);
    lemma_content_of_clean(cell.cell_type);
    let p1 = "<td id=\"cell-"@;
    let p2 = p1 + num_seq(r);
    lemma_no_pair_concat(p1, num_seq(r), 'e', 'd');
    lemma_no_pair_concat(p1, num_seq(r), 'i', 'b');
    let p3 = p2 + "-"@;
    lemma_no_pair_concat(p2, "-"@, 'e', 'd');
    lemma_no_pair_concat(p2, "-"@, 'i', 'b');
    let p4 = p3 + num_seq(c);
    lemma_no_pair_concat(p3, num_seq(c), 'e', 'd');
    lemma_no_pair_concat(p3, num_seq(c), 'i', 'b');
    let p5 = p4 + "\" class=\""@;
    lemma_no_pair_concat(p4, "\" class=\""@, 'e', 'd');
    lemma_no_pair_concat(p4, "\" class=\""@, 'i', 'b');
    assert(p5[p5.len() - 1] == '"');
    let p6 = p5 + class_of(cell.cell_type);
    lemma_no_pair_concat(p5, class_of(cell.cell_type), 'e', 'd');
    lemma_no_pair_concat(p5, class_of(cell.cell_type), 'i', 'b');
    let corner_chunk = if cell.is_corner {
        " corner-cell"@
    } else {
        ""@
    };
    let p7 = p6 + corner_chunk;
    lemma_no_pair_concat(p6, corner_chunk, 'e', 'd');
    lemma_no_pair_concat(p6, corner_chunk, 'i', 'b');
    let throne_chunk = if cell.is_throne {
        " throne-cell"@
    } else {
        ""@
    };
    let p8 = p7 + throne_chunk;
    lemma_no_pair_concat(p7, throne_chunk, 'e', 'd');
    lemma_no_pair_concat(p7, throne_chunk, 'i', 'b');
    let p9 = p8 + ""@;
    lemma_no_pair_concat(p8, ""@, 'e', 'd');
    lemma_no_pair_concat(p8, ""@, 'i', 'b');
    let p10 = p9 + ""@;
    lemma_no_pair_concat(p9, ""@, 'e', 'd');
    lemma_no_pair_concat(p9, ""@, 'i', 'b');
    let p11 = p10 + "\" onclick=\"handleCellClick("@;
    lemma_no_pair_concat(p10, "\" onclick=\"handleCellClick("@, 'e', 'd');
    lemma_no_pair_concat(p10, "\" onclick=\"handleCellClick("@, 'i', 'b');
    let p12 = p11 + num_seq(r);
    lemma_no_pair_concat(p11, num_seq(r), 'e', 'd');
    lemma_no_pair_concat(p11, num_seq(r), 'i', 'b');
    let p13 = p12 + ", "@;
    lemma_no_pair_concat(p12, ", "@, 'e', 'd');
    lemma_no_pair_concat(p12, ", "@, 'i', 'b');
    let p14 = p13 + num_seq(c);
    lemma_no_pair_concat(p13, num_seq(c), 'e', 'd');
    lemma_no_pair_concat(p13, num_seq(c), 'i', 'b');
    let p15 = p14 + ")\">"@;
    lemma_no_pair_concat(p14, ")\">"@, 'e', 'd');
    lemma_no_pair_concat(p14, ")\">"@, 'i', 'b');
    let p16 = p15 + content_of(cell.cell_type);
    lemma_no_pair_concat(p15, content_of(cell.cell_type), 'e', 'd');
    lemma_no_pair_concat(p15, content_of(cell.cell_type), 'i', 'b');
    let p17 = p16 + "</td>"@;
    lemma_no_pair_concat(p16, "</td>"@, 'e', 'd');
    lemma_no_pair_concat(p16, "</td>"@, 'i', 'b');
    assert(cell_html(cell, r, c) == p17);
}

proof fn lemma_coord_td_clean(label: Seq<char>)
    requires
        clean_of_overlay_pairs(label),
    ensures
        clean_of_overlay_pairs(coord_td(label)),
        coord_td(label).len() > 0,
        coord_td(label)[0] == '<',
{
    reveal_strlit("<td class=\"coordinates\" style=\"border: none;\">");
    reveal_strlit("</td>");
    let p1 = "<td class=\"coordinates\" style=\"border: none;\">"@;
    assert(p1[p1.len() - 1] == '>');
    let p2 = p1 + label;
    lemma_no_pair_concat(p1, label, 'e', 'd');
    lemma_no_pair_concat(p1, label, 'i', 'b');
    let p3 = p2 + "</td>"@;
    lemma_no_pair_concat(p2, "</td>"@, 'e', 'd');
    lemma_no_pair_concat(p2, "</td>"@, 'i', 'b');
    assert(coord_td(label) == p3);
}

proof fn lemma_row_cells_clean(row: Seq<Cell>, r: int, k: int)
    requires
        forall|j: int|
            0 <= j < row.len() ==> !(#[trigger] row[j]).is_selected && !row[j].is_possible_move,
        k <= row.len(),
    ensures
        clean_of_overlay_pairs(row_cells_html(row, r, k)),
    decreases k,
{
    reveal_strlit("");
    if k > 0 {
        lemma_row_cells_clean(row, r, k - 1);
        lemma_cell_html_clean(row[k - 1], r, k - 1);
        lemma_no_pair_concat(
            row_cells_html(row, r, k - 1),
            cell_html(row[k - 1], r, k - 1),
            'e',
            'd',
        );
        lemma_no_pair_concat(
            row_cells_html(row, r, k - 1),
            cell_html(row[k - 1], r, k - 1),
            'i',
            'b',
        );
    }
}

proof fn lemma_row_html_clean(row: Seq<Cell>, r: int, n: int)
    requires
        forall|j: int|
            0 <= j < row.len() ==> !(#[trigger] row[j]).is_selected && !row[j].is_possible_move,
    ensures
        clean_of_overlay_pairs(row_html(row, r, n)),
        row_html(row, r, n).len() > 0,
        row_html(row, r, n)[0] == '<',
{
    reveal_strlit("<tr>");
    reveal_strlit("</tr>");
    lemma_row_cells_clean(row, r, row.len() as int);
    lemma_num_seq_clean(n - r);
    lemma_coord_td_clean(num_seq(n - r));
    let p1 = "<tr>"@;
    assert(p1[p1.len() - 1] == '>');
    let p2 = p1 + row_cells_html(row, r, row.len() as int);
    lemma_no_pair_concat(p1, row_cells_html(row, r, row.len() as int), 'e', 'd');
    lemma_no_pair_concat(p1, row_cells_html(row, r, row.len() as int), 'i', 'b');
    let p3 = p2 + coord_td(num_seq(n - r));
    lemma_no_pair_concat(p2, coord_td(num_seq(n - r)), 'e', 'd');
    lemma_no_pair_concat(p2, coord_td(num_seq(n - r)), 'i', 'b');
    let p4 = p3 + "</tr>"@;
    lemma_no_pair_concat(p3, "</tr>"@, 'e', 'd');
    lemma_no_pair_concat(p3, "</tr>"@, 'i', 'b');
    assert(row_html(row, r, n) == p4);
}

proof fn lemma_rows_clean(b: Seq<Seq<Cell>>, n: int, k: int)
    requires
        board_square(b, n),
        overlay_clear(b, n),
        k <= n,
    ensures
        clean_of_overlay_pairs(rows_html(b, n, k)),
    decreases k,
{
    reveal_strlit("");
    if k > 0 {
        lemma_rows_clean(b, n, k - 1);
        assert forall|j: int|
            0 <= j < b[k - 1].len() implies !(#[trigger] b[k - 1][j]).is_selected && !b[k
            - 1][j].is_possible_move by {
            assert(crate::setup::in_bounds(n, k - 1, j));
        }
        lemma_row_html_clean(b[k - 1], k - 1, n);
        lemma_no_pair_concat(rows_html(b, n, k - 1), row_html(b[k - 1], k - 1, n), 'e', 'd');
        lemma_no_pair_concat(rows_html(b, n, k - 1), row_html(b[k - 1], k - 1, n), 'i', 'b');
    }
}

proof fn lemma_footer_clean(k: int)
    ensures
        clean_of_overlay_pairs(footer_html(k)),
    decreases k,
{
    reveal_strlit("");
    if k > 0 {
        lemma_footer_clean(k - 1);
        lemma_letter_seq_clean(k - 1);
        lemma_coord_td_clean(letter_seq(k - 1));
        lemma_no_pair_concat(footer_html(k - 1), coord_td(letter_seq(k - 1)), 'e', 'd');
        lemma_no_pair_concat(footer_html(k - 1), coord_td(letter_seq(k - 1)), 'i', 'b');
    }
}

proof fn lemma_pairs_exclude_overlay_classes(s: Seq<char>)
    requires
        clean_of_overlay_pairs(s),
    ensures
        !contains_seq(s, "selected-cell"@),
        !contains_seq(s, "possible-cell"@),
{
    reveal_strlit("selected-cell");
    reveal_strlit("possible-cell");
    if contains_seq(s, "selected-cell"@) {
        let i = choose|i: int|
            0 <= i <= s.len() - "selected-cell"@.len() && (#[trigger] s.subrange(
                i,
                i + "selected-cell"@.len(),
            )) == "selected-cell"@;
        assert(s.subrange(i, i + 13)[6] == 'e');
        assert(s.subrange(i, i + 13)[7] == 'd');
        assert(s[i + 6] == 'e');
        assert(s[i + 7] == 'd');
        assert(has_pair(s, 'e', 'd'));
    }
    if contains_seq(s, "possible-cell"@) {
        let i = choose|i: int|
            0 <= i <= s.len() - "possible-cell"@.len() && (#[trigger] s.subrange(
                i,
                i + "possible-cell"@.len(),
            )) == "possible-cell"@;
        assert(s.subrange(i, i + 13)[4] == 'i');
        assert(s.subrange(i, i + 13)[5] == 'b');
        assert(s[i + 4] == 'i');
        assert(s[i + 5] == 'b');
        assert(has_pair(s, 'i', 'b'));
    }
}

/// The rendering of an overlay-free board never contains the class text
/// `selected-cell` or `possible-cell`: what the coordinator projects to
/// the inactive role of an online match carries no trace of the live
/// selection, down to the HTML characters.
pub proof fn lemma_render_no_overlay_classes(b: Seq<Seq<Cell>>, n: int)
    requires
        board_square(b, n),
        overlay_clear(b, n),
    ensures
        !contains_seq(board_html(b, n), "selected-cell"@),
        !contains_seq(board_html(b, n), "possible-cell"@),
{
    reveal_strlit("<table>");
    reveal_strlit("</table>");
    reveal_strlit("<tr>");
    reveal_strlit("</tr>");
    lemma_rows_clean(b, n, n);
    lemma_footer_clean(n);
    let q1 = "<tr>"@ + footer_html(n);
    assert("<tr>"@["<tr>"@.len() - 1] == '>');
    lemma_no_pair_concat("<tr>"@, footer_html(n), 'e', 'd');
    lemma_no_pair_concat("<tr>"@, footer_html(n), 'i', 'b');
    let q2 = q1 + "</tr>"@;
    lemma_no_pair_concat(q1, "</tr>"@, 'e', 'd');
    lemma_no_pair_concat(q1, "</tr>"@, 'i', 'b');
    assert(q2[0] == '<');
    let p1 = "<table>"@;
    assert(p1[p1.len() - 1] == '>');
    let p2 = p1 + rows_html(b, n, n);
    lemma_no_pair_concat(p1, rows_html(b, n, n), 'e', 'd');
    lemma_no_pair_concat(p1, rows_html(b, n, n), 'i', 'b');
    let p3 = p2 + q2;
    lemma_no_pair_concat(p2, q2, 'e', 'd');
    lemma_no_pair_concat(p2, q2, 'i', 'b');
    let p4 = p3 + "</table>"@;
    lemma_no_pair_concat(p3, "</table>"@, 'e', 'd');
    lemma_no_pair_concat(p3, "</table>"@, 'i', 'b');
    assert(board_html(b, n) == p4);
    lemma_pairs_exclude_overlay_classes(p4);
}

fn num_str(i: usize) -> (r: &'static str)
    requires
        i <= 11,
    ensures
        r@ == num_seq(i as int),
{
    match i {
        0 => "0",
        1 => "1",
        2 => "2",
        3 => "3",
        4 => "4",
        5 => "5",
        6 => "6",
        7 => "7",
        8 => "8",
        9 => "9",
        10 => "10",
        _ => "11",
    }
}

fn letter_str(c: usize) -> (r: &'static str)
    requires
        c <= 10,
    ensures
        r@ == letter_seq(c as int),
{
    match c {
        0 => "a",
        1 => "b",
        2 => "c",
        3 => "d",
        4 => "e",
        5 => "f",
        6 => "g",
        7 => "h",
        8 => "i",
        9 => "j",
        _ => "k",
    }
}

fn class_str(t: CellType) -> (r: &'static str)
    ensures
        r@ == class_of(t),
{
    match t {
        CellType::Empty => "empty",
        CellType::Attacker => "attacker",
        CellType::Defender => "defender",
        CellType::King => "king",
    }
}

fn content_str(t: CellType) -> (r: &'static str)
    ensures
        r@ == content_of(t),
{
    match t {
        CellType::Empty => "",
        CellType::Attacker => "<img src=\"/images/attacker.png\" alt=\"Attacker\" class=\"piece\" />",
        CellType::Defender => "<img src=\"/images/defender.png\" alt=\"Defender\" class=\"piece\" />",
        CellType::King => "<img src=\"/images/queen.png\" alt=\"King\" class=\"piece\" />",
    }
}

fn cell_string(cell: Cell, r: usize, c: usize) -> (s: String)
    requires
        r <= 10,
        c <= 10,
    ensures
        s@ == cell_html(cell, r as int, c as int),
{
    let mut s = String::from_str("<td id=\"cell-");
    s.append(num_str(r));
    s.append("-");
    s.append(num_str(c));
    s.append("\" class=\"");
    s.append(class_str(cell.cell_type));
    s.append(if cell.is_corner { " corner-cell" } else { "" });
    s.append(if cell.is_throne { " throne-cell" } else { "" });
    s.append(if cell.is_selected { " selected-cell" } else { "" });
    s.append(if cell.is_possible_move { " possible-cell" } else { "" });
    s.append("\" onclick=\"handleCellClick(");
    s.append(num_str(r));
    s.append(", ");
    s.append(num_str(c));
    s.append(")\">");
    s.append(content_str(cell.cell_type));
    s.append("</td>");
    s
}

fn coord_td_string(label: &str) -> (s: String)
    ensures
        s@ == coord_td(label@),
{
    let mut s = String::from_str("<td class=\"coordinates\" style=\"border: none;\">");
    s.append(label);
    s.append("</td>");
    s
}

fn row_string(row: &Vec<Cell>, r: usize, n: usize) -> (s: String)
    requires
        row@.len() == n,
        r < n,
        n <= 11,
    ensures
        s@ == row_html(row.deep_view(), r as int, n as int),
{
    let mut s = String::from_str("<tr>");
    let mut c: usize = 0;
    proof {
        reveal_strlit("");
        assert(s@ =~= "<tr>"@ + row_cells_html(row.deep_view(), r as int, 0));
    }
    while c < n
        invariant
            c <= n,
            n <= 11,
            r < n,
            row@.len() == n,
            s@ == "<tr>"@ + row_cells_html(row.deep_view(), r as int, c as int),
        decreases n - c,
    {
        let cs = cell_string(row[c], r, c);
        proof {
            assert(row.deep_view()[c as int] == row@[c as int]);
        }
        s.append(cs.as_str());
        proof {
            assert(s@ =~= "<tr>"@ + row_cells_html(row.deep_view(), r as int, c as int + 1));
        }
        c = c + 1;
    }
    let label = num_str(n - r);
    let coord = coord_td_string(label);
    s.append(coord.as_str());
    s.append("</tr>");
    proof {
        assert(s@ =~= row_html(row.deep_view(), r as int, n as int));
    }
    s
}

/// Render a square board of side `n` as an HTML table.
fn render_board(board: &Vec<Vec<Cell>>, n: usize) -> (s: String)
    requires
        board_square(board.deep_view(), n as int),
        1 <= n <= 11,
    ensures
        s@ == board_html(board.deep_view(), n as int),
{
    let ghost bv = board.deep_view();
    let mut s = String::from_str("<table>");
    let mut r: usize = 0;
    proof {
        assert(board.deep_view().len() == board@.len());
        reveal_strlit("");
        assert(s@ =~= "<table>"@ + rows_html(bv, n as int, 0));
    }
    while r < n
        invariant
            r <= n,
            1 <= n <= 11,
            bv == board.deep_view(),
            n == board@.len(),
            board_square(bv, n as int),
            s@ == "<table>"@ + rows_html(bv, n as int, r as int),
        decreases n - r,
    {
        proof {
            assert(board.deep_view()[r as int] == board@[r as int].deep_view());
            assert(board@[r as int]@.len() == n);
        }
        let rs = row_string(&board[r], r, n);
        s.append(rs.as_str());
        proof {
            assert(s@ =~= "<table>"@ + rows_html(bv, n as int, r as int + 1));
        }
        r = r + 1;
    }
    s.append("<tr>");
    let ghost mid = s@;
    let mut c: usize = 0;
    proof {
        reveal_strlit("");
        assert(s@ =~= mid + footer_html(0));
    }
    while c < n
        invariant
            c <= n,
            n <= 11,
            mid == "<table>"@ + rows_html(bv, n as int, n as int) + "<tr>"@,
            s@ == mid + footer_html(c as int),
        decreases n - c,
    {
        let td = coord_td_string(letter_str(c));
        s.append(td.as_str());
        proof {
            assert(s@ =~= mid + footer_html(c as int + 1));
        }
        c = c + 1;
    }
    s.append("</tr>");
    s.append("</table>");
    proof {
        assert(s@ =~= board_html(bv, n as int));
    }
    s
}

/// Render a 9-by-9 Tablut board as an HTML table.
pub fn render_tablut_board_as_html(board: &Vec<Vec<Cell>>) -> (s: String)
    requires
        board_square(board.deep_view(), 9),
    ensures
        s@ == board_html(board.deep_view(), 9),
        overlay_clear(board.deep_view(), 9) ==> !contains_seq(s@, "selected-cell"@)
            && !contains_seq(s@, "possible-cell"@),
{
    let s = render_board(board, 9);
    proof {
        if overlay_clear(board.deep_view(), 9) {
            lemma_render_no_overlay_classes(board.deep_view(), 9);
        }
    }
    s
}

/// Render an 11-by-11 Hnefatafl board as an HTML table.
pub fn render_hnefatafl_board_as_html(board: &Vec<Vec<Cell>>) -> (s: String)
    requires
        board_square(board.deep_view(), 11),
    ensures
        s@ == board_html(board.deep_view(), 11),
        overlay_clear(board.deep_view(), 11) ==> !contains_seq(s@, "selected-cell"@)
            && !contains_seq(s@, "possible-cell"@),
{
    let s = render_board(board, 11);
    proof {
        if overlay_clear(board.deep_view(), 11) {
            lemma_render_no_overlay_classes(board.deep_view(), 11);
        }
    }
    s
}

/// Render a 7-by-7 Brandubh board as an HTML table.
pub fn render_brandubh_board_as_html(board: &Vec<Vec<Cell>>) -> (s: String)
    requires
        board_square(board.deep_view(), 7),
    ensures
        s@ == board_html(board.deep_view(), 7),
        overlay_clear(board.deep_view(), 7) ==> !contains_seq(s@, "selected-cell"@)
            && !contains_seq(s@, "possible-cell"@),
{
    let s = render_board(board, 7);
    proof {
        if overlay_clear(board.deep_view(), 7) {
            lemma_render_no_overlay_classes(board.deep_view(), 7);
        }
    }
    s
}

/// Render an 11-by-11 board under Koch's tournament layout as an HTML
/// table; the projection is the same as for Hnefatafl.
pub fn render_koch_board_as_html(board: &Vec<Vec<Cell>>) -> (s: String)
    requires
        board_square(board.deep_view(), 11),
    ensures
        s@ == board_html(board.deep_view(), 11),
        overlay_clear(board.deep_view(), 11) ==> !contains_seq(s@, "selected-cell"@)
            && !contains_seq(s@, "possible-cell"@),
{
    let s = render_board(board, 11);
    proof {
        if overlay_clear(board.deep_view(), 11) {
            lemma_render_no_overlay_classes(board.deep_view(), 11);
        }
    }
    s
}

} // verus!

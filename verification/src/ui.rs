//! The front ends' decisions: mapping window coordinates to squares,
//! listing the moves a selected piece may make, deciding what a click on
//! the board means, and rendering a board as text. Drawing, mouse and
//! keyboard stay outside; every decision about them is made here.

use vstd::prelude::*;

use crate::rules::{board_moves, board_pieces, board_squares, moves_of};
use crate::types::{is_board, Move, Piece, PieceKind, Side};

verus! {

/// The window is a square of this many pixels, eight tiles a side.
pub const WINDOW_SIZE: i16 = 800;

/// The tile a window coordinate falls in: file counted from the left,
/// rank row counted from the top. The point of view does not move tiles,
/// only what they show.
pub fn canvas_coord_to_canvas_square(x: i16, y: i16, pov: u8) -> (r: (i16, i16))
    requires
        x >= 0,
        y >= 0,
    ensures
        r.0 == x as int / 100,
        r.1 == y as int / 100,
{
    let file = x / (WINDOW_SIZE / 8);
    let rank = y / (WINDOW_SIZE / 8);
    (file, rank)
}

/// The board square a tile shows: with White's point of view (1) the top
/// row is rank eight; with Black's the board is rotated.
pub open spec fn spec_canvas_to_board(square: (i16, i16), pov: u8) -> int {
    if pov == 1 {
        (7 - square.1) * 8 + square.0
    } else {
        square.1 * 8 + (7 - square.0)
    }
}

/// The square index a tile shows, 0 being a1 and 63 h8.
pub fn canvas_square_to_board_square(square: (i16, i16), pov: u8) -> (r: u8)
    requires
        0 <= square.0 < 8,
        0 <= square.1 < 8,
    ensures
        r == spec_canvas_to_board(square, pov),
        r < 64,
{
    let (x, y) = square;
    if pov == 1 {
        ((7 - y) * 8 + x) as u8
    } else {
        (y * 8 + (7 - x)) as u8
    }
}

/// The tile that shows a board square, inverse of the square lookup.
pub open spec fn spec_board_to_canvas(idx: u8, pov: u8) -> (int, int) {
    if pov == 1 {
        (idx as int % 8, 7 - idx as int / 8)
    } else {
        (7 - idx as int % 8, idx as int / 8)
    }
}

/// Where on the window a board square is drawn.
pub fn board_square_to_canvas_square(idx: u8, pov: u8) -> (r: (u8, u8))
    requires
        idx < 64,
    ensures
        r.0 == spec_board_to_canvas(idx, pov).0,
        r.1 == spec_board_to_canvas(idx, pov).1,
        r.0 < 8 && r.1 < 8,
{
    if pov == 1 {
        (idx % 8, 7 - idx / 8)
    } else {
        (7 - idx % 8, idx / 8)
    }
}

/// No moves at all: what an empty selection shows.
pub fn movegen_empty() -> (r: Vec<Move>)
    ensures
        r@ == Seq::<Move>::empty(),
{
    Vec::new()
}

/// The legal moves that start on one square, in generator order.
pub open spec fn moves_from(ms: Seq<Move>, from: u8) -> Seq<Move>
    decreases ms.len(),
{
    if ms.len() == 0 {
        Seq::empty()
    } else {
        let rest = moves_from(ms.drop_last(), from);
        if ms.last().from == from {
            rest.push(ms.last())
        } else {
            rest
        }
    }
}

/// The legal moves of the piece on `start_square`, or none when the square
/// is empty. The moving side is fixed by the board itself.
pub fn movegen(board: &chess::Board, start_square: u8, color_to_move: Side) -> (r: Vec<Move>)
    requires
        start_square < 64,
    ensures
        r@ == if board_squares(*board)[start_square as int] is Some {
            moves_from(board_moves(*board), start_square)
        } else {
            Seq::<Move>::empty()
        },
{
    let sqs = board_pieces(board);
    match sqs[start_square as usize] {
        None => movegen_empty(),
        Some(_) => {
            let all = moves_of(board);
            let mut v: Vec<Move> = Vec::new();
            let mut i: usize = 0;
            while i < all.len()
                invariant
                    all@ == board_moves(*board),
                    i <= all@.len(),
                    v@ == moves_from(all@.take(i as int), start_square),
                decreases all@.len() - i,
            {
                proof {
                    assert(all@.take(i + 1).drop_last() =~= all@.take(i as int));
                    assert(all@.take(i + 1).last() == all@[i as int]);
                }
                if all[i].from == start_square {
                    let m = all[i];
                    v.push(m);
                }
                i = i + 1;
            }
            proof {
                assert(all@.take(all@.len() as int) =~= all@);
            }
            v
        },
    }
}

/// The point of view a fresh game starts with: Black's side of the board
/// (2) only when White alone is an engine and Black alone is a person;
/// otherwise White's (1).
pub fn initial_pov(white_is_human: bool, black_is_human: bool) -> (r: u8)
    ensures
        r == if !white_is_human && black_is_human {
            2int
        } else {
            1int
        },
{
    if !white_is_human && black_is_human {
        2
    } else {
        1
    }
}

/// What one click on the board means.
#[derive(Clone, Copy, Debug, PartialEq, Eq)]
pub enum ClickOutcome {
    /// The already selected tile was clicked again: nothing changes.
    Ignore,
    /// No tile was selected: select this one and show the moves of the
    /// piece on the square it shows.
    Select { field: (i16, i16), square: u8 },
    /// A move from the selected square to the clicked square is allowed:
    /// play it and drop the selection.
    Play { mv: Move },
    /// The clicked square completes no move: select the clicked tile
    /// instead and show the moves of the piece it shows.
    Reselect { field: (i16, i16), square: u8 },
}

/// The side holding a square, if any.
pub open spec fn side_at(sqs: Seq<Option<Piece>>, i: int) -> Option<Side> {
    match sqs[i] {
        Some(p) => Some(p.side),
        None => None,
    }
}

/// Whether some listed move ends on the given square.
pub open spec fn has_move_to(legal: Seq<Move>, to: int) -> bool {
    exists|k: int| 0 <= k < legal.len() && (#[trigger] legal[k]).to == to
}

/// The promotion a click asks for: moving a pawn onto the first or eighth
/// rank always promotes to a queen.
pub open spec fn spec_click_promotion(sqs: Seq<Option<Piece>>, start: int, target: int) -> Option<
    PieceKind,
> {
    if sqs[start] matches Some(p) && p.kind == PieceKind::Pawn && (target / 8 == 0 || target / 8
        == 7) {
        Some(PieceKind::Queen)
    } else {
        None
    }
}

/// What a click means, in full: the mathematical form of `handle_click`.
pub open spec fn spec_handle_click(
    field_selected: bool,
    field: (i16, i16),
    clicked: (i16, i16),
    pov: u8,
    sqs: Seq<Option<Piece>>,
    turn: Side,
    legal: Seq<Move>,
) -> ClickOutcome {
    if field == clicked {
        ClickOutcome::Ignore
    } else if !field_selected {
        ClickOutcome::Select { field: clicked, square: spec_canvas_to_board(clicked, pov) as u8 }
    } else {
        let start = spec_canvas_to_board(field, pov);
        let target = spec_canvas_to_board(clicked, pov);
        if sqs[start] is Some && (side_at(sqs, start) != side_at(sqs, target) || sqs[target]
            is None) && side_at(sqs, start) == Some(turn) && has_move_to(legal, target) {
            ClickOutcome::Play {
                mv: Move {
                    from: start as u8,
                    to: target as u8,
                    promotion: spec_click_promotion(sqs, start, target),
                },
            }
        } else {
            ClickOutcome::Reselect { field: clicked, square: target as u8 }
        }
    }
}

/// Whether any listed move ends on the given square, executably.
fn any_move_to(legal: &Vec<Move>, to: u8) -> (r: bool)
    ensures
        r == has_move_to(legal@, to as int),
{
    let mut i: usize = 0;
    while i < legal.len()
        invariant
            i <= legal@.len(),
            forall|k: int| 0 <= k < i ==> (#[trigger] legal@[k]).to != to,
        decreases legal@.len() - i,
    {
        if legal[i].to == to {
            return true;
        }
        i = i + 1;
    }
    false
}

/// Decide what a click on the board means: select a piece, play the move
/// it allows, or move the selection. `legal` is what the current selection
/// offered; the board model supplies occupancy and colors.
pub fn handle_click(
    field_selected: bool,
    field: (i16, i16),
    clicked: (i16, i16),
    pov: u8,
    sqs: &Vec<Option<Piece>>,
    turn: Side,
    legal: &Vec<Move>,
) -> (r: ClickOutcome)
    requires
        is_board(sqs@),
        0 <= clicked.0 < 8,
        0 <= clicked.1 < 8,
        field_selected ==> 0 <= field.0 < 8 && 0 <= field.1 < 8,
    ensures
        r == spec_handle_click(field_selected, field, clicked, pov, sqs@, turn, legal@),
{
    if field.0 == clicked.0 && field.1 == clicked.1 {
        proof {
            assert(field == clicked);
        }
        return ClickOutcome::Ignore;
    }
    proof {
        assert(field != clicked);
    }
    if !field_selected {
        let square = canvas_square_to_board_square(clicked, pov);
        return ClickOutcome::Select { field: clicked, square };
    }
    let start = canvas_square_to_board_square(field, pov);
    let target = canvas_square_to_board_square(clicked, pov);
    let start_side: Option<Side> = match sqs[start as usize] {
        Some(p) => Some(p.side),
        None => None,
    };
    let target_side: Option<Side> = match sqs[target as usize] {
        Some(p) => Some(p.side),
        None => None,
    };
    let start_occupied = start_side.is_some();
    let target_occupied = target_side.is_some();
    let sides_differ = match (start_side, target_side) {
        (Some(a), Some(b)) => a != b,
        (Some(_), None) => true,
        (None, Some(_)) => true,
        (None, None) => false,
    };
    let start_is_turn = match start_side {
        Some(a) => a == turn,
        None => false,
    };
    if start_occupied && (sides_differ || !target_occupied) && start_is_turn && any_move_to(
        legal,
        target,
    ) {
        let start_is_pawn = match sqs[start as usize] {
            Some(p) => matches!(p.kind, PieceKind::Pawn),
            None => false,
        };
        let prom: Option<PieceKind> = if start_is_pawn && (target / 8 == 0 || target / 8 == 7) {
            Some(PieceKind::Queen)
        } else {
            None
        };
        ClickOutcome::Play { mv: Move { from: start, to: target, promotion: prom } }
    } else {
        ClickOutcome::Reselect { field: clicked, square: target }
    }
}

/// The letter a piece shows in the terminal: upper case for White, lower
/// case for Black.
pub open spec fn piece_letter(p: Piece) -> char {
    match p.kind {
        PieceKind::Pawn => if p.side == Side::White { 'P' } else { 'p' },
        PieceKind::Knight => if p.side == Side::White { 'N' } else { 'n' },
        PieceKind::Bishop => if p.side == Side::White { 'B' } else { 'b' },
        PieceKind::Rook => if p.side == Side::White { 'R' } else { 'r' },
        PieceKind::Queen => if p.side == Side::White { 'Q' } else { 'q' },
        PieceKind::King => if p.side == Side::White { 'K' } else { 'k' },
    }
}

/// The two characters a square shows: its piece's letter and a space, or
/// two spaces when it is empty.
pub open spec fn cell_chars(sq: Option<Piece>) -> Seq<char> {
    match sq {
        None => seq![' ', ' '],
        Some(p) => seq![piece_letter(p), ' '],
    }
}

/// The text of one square's cell.
fn cell_str(sq: &Option<Piece>) -> (r: &'static str)
    ensures
        r@ == cell_chars(*sq),
{
    proof {
        reveal_strlit("  ");
        reveal_strlit("P ");
        reveal_strlit("p ");
        reveal_strlit("N ");
        reveal_strlit("n ");
        reveal_strlit("B ");
        reveal_strlit("b ");
        reveal_strlit("R ");
        reveal_strlit("r ");
        reveal_strlit("Q ");
        reveal_strlit("q ");
        reveal_strlit("K ");
        reveal_strlit("k ");
    }
    let r = match sq {
        None => "  ",
        Some(p) => match (p.kind, p.side) {
            (PieceKind::Pawn, Side::White) => "P ",
            (PieceKind::Pawn, Side::Black) => "p ",
            (PieceKind::Knight, Side::White) => "N ",
            (PieceKind::Knight, Side::Black) => "n ",
            (PieceKind::Bishop, Side::White) => "B ",
            (PieceKind::Bishop, Side::Black) => "b ",
            (PieceKind::Rook, Side::White) => "R ",
            (PieceKind::Rook, Side::Black) => "r ",
            (PieceKind::Queen, Side::White) => "Q ",
            (PieceKind::Queen, Side::Black) => "q ",
            (PieceKind::King, Side::White) => "K ",
            (PieceKind::King, Side::Black) => "k ",
        },
    };
    proof {
        assert(r@ =~= cell_chars(*sq));
    }
    r
}

/// The rank digit shown at the left of a row, rank eight at the top.
pub open spec fn rank_label(row: int) -> Seq<char> {
    if row == 0 {
        "8"@
    } else if row == 1 {
        "7"@
    } else if row == 2 {
        "6"@
    } else if row == 3 {
        "5"@
    } else if row == 4 {
        "4"@
    } else if row == 5 {
        "3"@
    } else if row == 6 {
        "2"@
    } else {
        "1"@
    }
}

/// The text of a row's rank digit.
fn rank_label_str(row: usize) -> (r: &'static str)
    requires
        row < 8,
    ensures
        r@ == rank_label(row as int),
{
    match row {
        0 => "8",
        1 => "7",
        2 => "6",
        3 => "5",
        4 => "4",
        5 => "3",
        6 => "2",
        _ => "1",
    }
}

/// The cells of one displayed row up to `col`, each closed by its border:
/// row 0 shows rank eight, and within a row files run from a to h.
pub open spec fn row_cells(sqs: Seq<Option<Piece>>, row: int, col: int) -> Seq<char>
    decreases col,
{
    if col <= 0 {
        Seq::empty()
    } else {
        row_cells(sqs, row, col - 1) + cell_chars(sqs[(7 - row) * 8 + (col - 1)]) + "|"@
    }
}

/// The full text of one displayed row.
pub open spec fn spec_row_line(sqs: Seq<Option<Piece>>, row: int) -> Seq<char> {
    rank_label(row) + " |"@ + row_cells(sqs, row, 8)
}

/// The eight rows of a board as text, rank eight first, each square shown
/// as its piece's letter: what the terminal front end prints between its
/// border lines.
pub fn board_lines(sqs: &Vec<Option<Piece>>) -> (r: Vec<String>)
    requires
        is_board(sqs@),
    ensures
        r@.len() == 8,
        forall|row: int| 0 <= row < 8 ==> (#[trigger] r@[row])@ == spec_row_line(sqs@, row),
{
    let mut out: Vec<String> = Vec::new();
    let mut row: usize = 0;
    while row < 8
        invariant
            is_board(sqs@),
            row <= 8,
            out@.len() == row,
            forall|k: int| 0 <= k < row ==> (#[trigger] out@[k])@ == spec_row_line(sqs@, k),
        decreases 8 - row,
    {
        let mut line = String::from_str(rank_label_str(row));
        line.append(" |");
        let mut col: usize = 0;
        while col < 8
            invariant
                is_board(sqs@),
                row < 8,
                col <= 8,
                line@ == rank_label(row as int) + " |"@ + row_cells(sqs@, row as int, col as int),
            decreases 8 - col,
        {
            let idx: usize = (7 - row) * 8 + col;
            line.append(cell_str(&sqs[idx]));
            line.append("|");
            col = col + 1;
        }
        out.push(line);
        row = row + 1;
    }
    out
}

} // verus!

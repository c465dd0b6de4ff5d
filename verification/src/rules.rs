//! The trusted boundary to the `chess` crate, the external rules engine.
//!
//! The engine's boards and moves are opaque to the verifier. What they hold
//! is given names here — `board_squares`, `board_turn`, `board_state`,
//! `board_moves`, `board_after`, `move_view` — and one wrapper per engine
//! function states, over those names, what its source shows. Everything
//! below the wrappers is verified against those statements.

use vstd::prelude::*;

use crate::types::{is_board, Move, Piece, PieceKind, Side, Status};

verus! {

#[verifier::external_type_specification]
#[verifier::external_body]
pub struct ExBoard(chess::Board);

#[verifier::external_type_specification]
#[verifier::external_body]
pub struct ExChessMove(chess::ChessMove);

/// What the 64 squares of a board hold, square 0 being a1 and square 63 h8.
pub uninterp spec fn board_squares(b: chess::Board) -> Seq<Option<Piece>>;

/// Which side a board says is to move.
pub uninterp spec fn board_turn(b: chess::Board) -> Side;

/// The terminal status a board reports.
pub uninterp spec fn board_state(b: chess::Board) -> Status;

/// The legal moves of a board, in the fixed order the move generator
/// enumerates them.
pub uninterp spec fn board_moves(b: chess::Board) -> Seq<Move>;

/// The board that results from playing a legal move.
pub uninterp spec fn board_after(b: chess::Board, m: Move) -> chess::Board;

/// The source, destination and promotion a rules-engine move carries.
pub uninterp spec fn move_view(m: chess::ChessMove) -> Move;

/// The board a FEN text parses to, if it parses at all.
pub uninterp spec fn fen_board(s: Seq<char>) -> Option<chess::Board>;

/// The legal move a text in standard algebraic notation names on a board,
/// if it names one.
pub uninterp spec fn san_move(b: chess::Board, s: Seq<char>) -> Option<Move>;

/// Whether bit `i` of a square mask is set.
pub open spec fn bit_set(mask: u64, i: int) -> bool {
    (mask >> i) & 1 == 1
}

/// Whether square `i` holds a piece of the given kind.
pub open spec fn square_has_kind(sqs: Seq<Option<Piece>>, i: int, k: PieceKind) -> bool {
    match sqs[i] {
        Some(p) => p.kind == k,
        None => false,
    }
}

/// Whether square `i` holds a piece of the given side.
pub open spec fn square_has_side(sqs: Seq<Option<Piece>>, i: int, s: Side) -> bool {
    match sqs[i] {
        Some(p) => p.side == s,
        None => false,
    }
}

/// Relies on chess::Board::pieces: the returned bitboard has bit `i` set
/// exactly when the square with index `i` holds a piece of the asked kind,
/// either side. A board has 64 squares.
#[verifier::external_body]
fn piece_mask(b: &chess::Board, k: PieceKind) -> (r: u64)
    ensures
        board_squares(*b).len() == 64 && forall|i: int|
            0 <= i < 64 ==> (#[trigger] bit_set(r, i) <==> square_has_kind(
                board_squares(*b),
                i,
                k,
            )),
{
    let piece = match k {
        PieceKind::Pawn => chess::Piece::Pawn,
        PieceKind::Knight => chess::Piece::Knight,
        PieceKind::Bishop => chess::Piece::Bishop,
        PieceKind::Rook => chess::Piece::Rook,
        PieceKind::Queen => chess::Piece::Queen,
        PieceKind::King => chess::Piece::King,
    };
    b.pieces(piece).0
}

/// Relies on chess::Board::color_combined: the returned bitboard has bit
/// `i` set exactly when the square with index `i` holds a piece of the
/// asked side, of any kind.
#[verifier::external_body]
fn color_mask(b: &chess::Board, s: Side) -> (r: u64)
    ensures
        board_squares(*b).len() == 64 && forall|i: int|
            0 <= i < 64 ==> (#[trigger] bit_set(r, i) <==> square_has_side(
                board_squares(*b),
                i,
                s,
            )),
{
    let color = match s {
        Side::White => chess::Color::White,
        Side::Black => chess::Color::Black,
    };
    b.color_combined(color).0
}

/// Relies on chess::Board::side_to_move.
#[verifier::external_body]
fn side_to_move_raw(b: &chess::Board) -> (r: Side)
    ensures
        r == board_turn(*b),
{
    match b.side_to_move() {
        chess::Color::White => Side::White,
        chess::Color::Black => Side::Black,
    }
}

/// Relies on chess::Board::status, whose source reports Ongoing exactly
/// when the move generator finds at least one legal move.
#[verifier::external_body]
fn status_raw(b: &chess::Board) -> (r: Status)
    ensures
        r == board_state(*b),
        (r == Status::Ongoing) <==> board_moves(*b).len() > 0,
{
    match b.status() {
        chess::BoardStatus::Ongoing => Status::Ongoing,
        chess::BoardStatus::Checkmate => Status::Checkmate,
        chess::BoardStatus::Stalemate => Status::Stalemate,
    }
}

/// Relies on chess::MoveGen::new_legal: it enumerates exactly the legal
/// moves of the board, in an order that is a fixed function of the board,
/// every move between squares on the board.
#[verifier::external_body]
pub(crate) fn legal_moves_raw(b: &chess::Board) -> (r: Vec<chess::ChessMove>)
    ensures
        r@.len() == board_moves(*b).len(),
        forall|i: int|
            0 <= i < r@.len() ==> #[trigger] move_view(r@[i]) == board_moves(*b)[i]
                && board_moves(*b)[i].on_board(),
{
    chess::MoveGen::new_legal(b).collect()
}

/// Relies on chess::Board::make_move_new: playing a legal move yields the
/// resulting board. It panics only when a king would be captured, which no
/// legal move does.
#[verifier::external_body]
pub(crate) fn make_move(b: &chess::Board, m: &chess::ChessMove) -> (r: chess::Board)
    requires
        board_moves(*b).contains(move_view(*m)),
    ensures
        r == board_after(*b, move_view(*m)),
{
    b.make_move_new(*m)
}

/// Relies on chess::ChessMove::get_source and chess::Square::to_int:
/// square indices are 0..64.
#[verifier::external_body]
pub(crate) fn move_from(m: &chess::ChessMove) -> (r: u8)
    ensures
        r == move_view(*m).from,
        r < 64,
{
    m.get_source().to_int()
}

/// Relies on chess::ChessMove::get_dest and chess::Square::to_int:
/// square indices are 0..64.
#[verifier::external_body]
pub(crate) fn move_to(m: &chess::ChessMove) -> (r: u8)
    ensures
        r == move_view(*m).to,
        r < 64,
{
    m.get_dest().to_int()
}

/// Relies on chess::ChessMove::get_promotion.
#[verifier::external_body]
pub(crate) fn move_promotion(m: &chess::ChessMove) -> (r: Option<PieceKind>)
    ensures
        r == move_view(*m).promotion,
{
    match m.get_promotion() {
        None => None,
        Some(chess::Piece::Pawn) => Some(PieceKind::Pawn),
        Some(chess::Piece::Knight) => Some(PieceKind::Knight),
        Some(chess::Piece::Bishop) => Some(PieceKind::Bishop),
        Some(chess::Piece::Rook) => Some(PieceKind::Rook),
        Some(chess::Piece::Queen) => Some(PieceKind::Queen),
        Some(chess::Piece::King) => Some(PieceKind::King),
    }
}

/// Relies on chess::Board::from_str, a pure function of the FEN text.
#[verifier::external_body]
fn board_from_fen_raw(fen: &str) -> (r: Option<chess::Board>)
    ensures
        r == fen_board(fen@),
{
    <chess::Board as std::str::FromStr>::from_str(fen).ok()
}

/// Relies on chess::ChessMove::from_san, a pure function of the board and
/// the text.
#[verifier::external_body]
fn san_to_move_raw(board: &chess::Board, text: &str) -> (r: Option<chess::ChessMove>)
    ensures
        match r {
            Some(m) => san_move(*board, text@) == Some(move_view(m)),
            None => san_move(*board, text@) is None,
        },
{
    chess::ChessMove::from_san(board, text).ok()
}

/// Test one bit of a square mask.
fn bit_at(mask: u64, i: usize) -> (r: bool)
    requires
        i < 64,
    ensures
        r == bit_set(mask, i as int),
{
    (mask >> i) & 1 == 1
}

/// The plain contents of a board: its 64 squares, as the evaluator and the
/// front ends read them.
#[verifier::loop_isolation(false)]
pub fn board_pieces(b: &chess::Board) -> (r: Vec<Option<Piece>>)
    ensures
        r@ == board_squares(*b),
        is_board(r@),
{
    let pawn_m = piece_mask(b, PieceKind::Pawn);
    let knight_m = piece_mask(b, PieceKind::Knight);
    let bishop_m = piece_mask(b, PieceKind::Bishop);
    let rook_m = piece_mask(b, PieceKind::Rook);
    let queen_m = piece_mask(b, PieceKind::Queen);
    let king_m = piece_mask(b, PieceKind::King);
    let white_m = color_mask(b, Side::White);
    let mut v: Vec<Option<Piece>> = Vec::new();
    let mut i: usize = 0;
    while i < 64
        invariant
            v@.len() == i,
            i <= 64,
            forall|j: int| 0 <= j < i ==> v@[j] == board_squares(*b)[j],
        decreases 64 - i,
    {
        let kind: Option<PieceKind> = if bit_at(pawn_m, i) {
            Some(PieceKind::Pawn)
        } else if bit_at(knight_m, i) {
            Some(PieceKind::Knight)
        } else if bit_at(bishop_m, i) {
            Some(PieceKind::Bishop)
        } else if bit_at(rook_m, i) {
            Some(PieceKind::Rook)
        } else if bit_at(queen_m, i) {
            Some(PieceKind::Queen)
        } else if bit_at(king_m, i) {
            Some(PieceKind::King)
        } else {
            None
        };
        match kind {
            Some(k) => {
                let side = if bit_at(white_m, i) {
                    Side::White
                } else {
                    Side::Black
                };
                v.push(Some(Piece { kind: k, side }));
            },
            None => {
                v.push(None);
            },
        }
        proof {
            assert(v@[i as int] == board_squares(*b)[i as int]);
        }
        i = i + 1;
    }
    proof {
        assert(v@ =~= board_squares(*b));
    }
    v
}

/// The side a board says is to move.
pub fn side_of(b: &chess::Board) -> (r: Side)
    ensures
        r == board_turn(*b),
{
    side_to_move_raw(b)
}

/// The terminal status of a board. Ongoing means at least one legal move
/// exists; checkmate and stalemate mean none does.
pub fn status_of(b: &chess::Board) -> (r: Status)
    ensures
        r == board_state(*b),
        (r == Status::Ongoing) <==> board_moves(*b).len() > 0,
{
    status_raw(b)
}

/// The legal moves of a board as plain values, in generator order.
pub fn moves_of(b: &chess::Board) -> (r: Vec<Move>)
    ensures
        r@ == board_moves(*b),
        forall|i: int| 0 <= i < r@.len() ==> #[trigger] r@[i].on_board(),
{
    let raw = legal_moves_raw(b);
    decode_moves(b, &raw)
}

/// Turn rules-engine moves into plain moves, one for one.
pub(crate) fn decode_moves(b: &chess::Board, raw: &Vec<chess::ChessMove>) -> (r: Vec<Move>)
    requires
        raw@.len() == board_moves(*b).len(),
        forall|i: int|
            0 <= i < raw@.len() ==> #[trigger] move_view(raw@[i]) == board_moves(*b)[i]
                && board_moves(*b)[i].on_board(),
    ensures
        r@ == board_moves(*b),
        forall|i: int| 0 <= i < r@.len() ==> #[trigger] r@[i].on_board(),
{
    let mut v: Vec<Move> = Vec::new();
    let mut i: usize = 0;
    while i < raw.len()
        invariant
            raw@.len() == board_moves(*b).len(),
            forall|j: int|
                0 <= j < raw@.len() ==> #[trigger] move_view(raw@[j]) == board_moves(*b)[j]
                    && board_moves(*b)[j].on_board(),
            v@.len() == i,
            i <= raw@.len(),
            forall|j: int| 0 <= j < i ==> v@[j] == board_moves(*b)[j],
        decreases raw@.len() - i,
    {
        let m = &raw[i];
        let decoded = Move { from: move_from(m), to: move_to(m), promotion: move_promotion(m) };
        proof {
            assert(decoded == board_moves(*b)[i as int]);
        }
        v.push(decoded);
        i = i + 1;
    }
    proof {
        assert(v@ =~= board_moves(*b));
        assert forall|j: int| 0 <= j < v@.len() implies #[trigger] v@[j].on_board() by {
            assert(move_view(raw@[j]) == board_moves(*b)[j]);
        }
    }
    v
}

/// Parse a FEN text into a board, if it is valid.
pub fn board_from_fen(fen: &str) -> (r: Option<chess::Board>)
    ensures
        r == fen_board(fen@),
{
    board_from_fen_raw(fen)
}

/// Interpret a text in standard algebraic notation as a legal move of the
/// board: the plain move it names, or nothing when the text names none.
pub fn parse_move(board: &chess::Board, text: &str) -> (r: Option<Move>)
    ensures
        r == san_move(*board, text@),
{
    match san_to_move_raw(board, text) {
        Some(m) => Some(Move { from: move_from(&m), to: move_to(&m), promotion: move_promotion(&m) }),
        None => None,
    }
}

} // verus!

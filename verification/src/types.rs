//! Plain data model of a chess position, as the evaluator and searcher see it.
//!
//! The rules engine (the `chess` crate) owns move generation and legality;
//! this module only describes what a square can hold, whose turn it is,
//! whether the game is over, and what a move looks like.

use vstd::prelude::*;

verus! {

/// One of the two players.
#[derive(Clone, Copy, Debug, PartialEq, Eq, Structural)]
pub enum Side {
    White,
    Black,
}

impl Side {
    /// The opponent of this side.
    pub open spec fn spec_other(self) -> Side {
        if self == Side::White {
            Side::Black
        } else {
            Side::White
        }
    }

    pub fn other(self) -> (r: Side)
        ensures
            r == self.spec_other(),
    {
        match self {
            Side::White => Side::Black,
            Side::Black => Side::White,
        }
    }
}

/// The six piece kinds of chess.
#[derive(Clone, Copy, Debug, PartialEq, Eq, Structural)]
pub enum PieceKind {
    Pawn,
    Knight,
    Bishop,
    Rook,
    Queen,
    King,
}

/// The index of a piece kind into the piece-square tables.
pub open spec fn kind_index(k: PieceKind) -> int {
    match k {
        PieceKind::Pawn => 0,
        PieceKind::Knight => 1,
        PieceKind::Bishop => 2,
        PieceKind::Rook => 3,
        PieceKind::Queen => 4,
        PieceKind::King => 5,
    }
}

/// Executable counterpart of `kind_index`.
pub fn kind_idx(k: PieceKind) -> (r: usize)
    ensures
        r == kind_index(k),
        r < 6,
{
    match k {
        PieceKind::Pawn => 0,
        PieceKind::Knight => 1,
        PieceKind::Bishop => 2,
        PieceKind::Rook => 3,
        PieceKind::Queen => 4,
        PieceKind::King => 5,
    }
}

/// A piece of a given kind belonging to a given side.
#[derive(Clone, Copy, Debug, PartialEq, Eq, Structural)]
pub struct Piece {
    pub kind: PieceKind,
    pub side: Side,
}

/// Whether the game is over, as reported by the rules engine.
#[derive(Clone, Copy, Debug, PartialEq, Eq, Structural)]
pub enum Status {
    Ongoing,
    Checkmate,
    Stalemate,
}

/// A move: source square, destination square, optional promotion.
/// Squares are indices 0..64, square 0 being a1, square 63 being h8,
/// as the rules engine numbers them.
#[derive(Clone, Copy, Debug, PartialEq, Eq)]
pub struct Move {
    pub from: u8,
    pub to: u8,
    pub promotion: Option<PieceKind>,
}

impl Move {
    /// Both squares of the move lie on the board.
    pub open spec fn on_board(self) -> bool {
        self.from < 64 && self.to < 64
    }
}

/// A full set of 64 squares, each empty or holding a piece.
pub open spec fn is_board(sqs: Seq<Option<Piece>>) -> bool {
    sqs.len() == 64
}

} // verus!

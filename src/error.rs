//! The ways in which an operation of the engine is refused.
use vstd::prelude::*;

verus! {

/// Why an operation was refused. A refused operation leaves every value as it was.
#[derive(Clone, Copy, Debug, PartialEq, Eq, Structural)]
pub enum GameError {
    /// A square that is not on the board, or malformed square notation.
    InvalidPosition,
    /// A character that names no piece.
    InvalidPieceCode,
    /// The piece is not on the board.
    PieceNotFound,
    /// The destination is not among the piece's legal moves.
    IllegalMove,
    /// The piece belongs to the side that is not to move.
    WrongTurn,
    /// The side to move owes a move that the request does not make.
    HonestyObligationPending,
    /// The board's masks disagree with each other.
    Internal,
}

/// The short description of an error.
pub open spec fn error_message(e: GameError) -> Seq<char> {
    match e {
        GameError::InvalidPosition => "invalid position"@,
        GameError::InvalidPieceCode => "invalid piece code"@,
        GameError::PieceNotFound => "piece not found"@,
        GameError::IllegalMove => "illegal move"@,
        GameError::WrongTurn => "wrong turn"@,
        GameError::HonestyObligationPending => "honesty move pending"@,
        GameError::Internal => "inconsistent board"@,
    }
}

impl GameError {
    /// A short description of the error.
    pub fn message(&self) -> (r: &'static str)
        ensures
            r@ == error_message(*self),
    {
        match self {
            GameError::InvalidPosition => "invalid position",
            GameError::InvalidPieceCode => "invalid piece code",
            GameError::PieceNotFound => "piece not found",
            GameError::IllegalMove => "illegal move",
            GameError::WrongTurn => "wrong turn",
            GameError::HonestyObligationPending => "honesty move pending",
            GameError::Internal => "inconsistent board",
        }
    }
}

} // verus!

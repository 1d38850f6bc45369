//! Rule engine for a two-player strategy game on an 8x8 board.
//!
//! The board keeps one 64-square mask per piece kind and one per side. The
//! engine generates each piece's legal moves, applies moves, reads and writes
//! board notation, and runs the turn order with its win claims and owed moves.
pub mod bitboard;
pub mod board;
pub mod error;
pub mod game;
pub mod movelog;
pub mod notation;
pub mod piece;
pub mod position;

pub use bitboard::BitBoard;
pub use board::Board;
pub use error::GameError;
pub use game::{blank_instance, BySide, EdgeSide, GameSide, GameState, Instance};
pub use piece::{decode_code, Piece, PieceStatus, PieceType, Side};
pub use position::{decode_position, Normalizable, Position};

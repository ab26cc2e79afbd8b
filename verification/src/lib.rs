//! Rules core of a chess engine: a bit-packed piece codec, a fixed-layout
//! position record, a FEN codec, a legal-move generator and a move executor.

pub mod attack;
pub mod board;
pub mod fen;
pub mod laws;
pub mod movegen;
pub mod piece;
pub mod play;

pub use board::Match;
pub use piece::Colour;
pub use piece::Piece;
pub use piece::PieceType;
pub use play::Play;

pub mod bitboard;
pub mod board;
pub mod castle;
pub mod fen;
pub mod promotion;

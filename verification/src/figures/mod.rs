pub mod color;
pub mod king;
pub mod knight;
pub mod pawn;
pub mod piece;
pub mod position;
pub mod sliding_moves;

pub mod zobrist;
pub mod transposition;

pub mod board;
pub mod figures;
pub mod helper;
pub mod engine;
pub mod evaluation;
pub mod uci;

pub mod helper;
pub mod magic_bitboard;
pub mod init_with_predefined;
pub mod find;

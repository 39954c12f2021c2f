pub mod magic_bitboards;
pub mod movement;
pub mod moves_by_field;
pub mod position_to_usize;
pub mod opening;

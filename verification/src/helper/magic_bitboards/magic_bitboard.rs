use vstd::prelude::*;
use crate::board::bitboard::Bitboard;

verus! {

/// What is needed to look up a sliding piece's attacks on one square: the squares whose
/// occupation matters, the magic factor, and the shift that leaves the table index.
#[derive(Debug, Clone, Copy)]
pub struct MagicBitboard {
    pub relevant_fields: Bitboard,
    pub magic_key: u64,
    pub index: u8,
}

impl Default for MagicBitboard {
    fn default() -> (r: MagicBitboard)
        ensures
            r.relevant_fields.board == 0,
            r.magic_key == 0,
            r.index == 0,
    {
        MagicBitboard { relevant_fields: Bitboard::new(), magic_key: 0, index: 0 }
    }
}

} // verus!

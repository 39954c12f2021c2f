use vstd::prelude::*;
use crate::board::bitboard::{Bitboard, fields_of};
use crate::board::promotion::Promotion;

verus! {

/// A move from one square to another, with the piece a pawn becomes if it promotes.
#[derive(Debug, Clone, Copy, Default, PartialEq, Eq, Structural)]
pub struct PossibleMove {
    pub from: usize,
    pub to: usize,
    pub promoted_to: Option<Promotion>,
}

/// Plain moves from `from` to each of `tos`, in that order.
pub open spec fn moves_from(from: usize, tos: Seq<usize>) -> Seq<PossibleMove> {
    tos.map_values(|t: usize| PossibleMove { from, to: t, promoted_to: None })
}

/// Appends a plain move from `from` to every square of `targets`, in ascending order.
pub fn push_moves_to_targets(from: usize, targets: Bitboard, possible_moves: &mut Vec<PossibleMove>)
    ensures
        final(possible_moves)@ == old(possible_moves)@ + moves_from(from, fields_of(targets.board)),
{
    let fields = targets.get_used_fields();
    let ghost start = possible_moves@;
    let mut k: usize = 0;
    while k < fields.len()
        invariant
            k <= fields.len(),
            fields@ == fields_of(targets.board),
            possible_moves@ == start + moves_from(from, fields@.take(k as int)),
        decreases fields.len() - k,
    {
        possible_moves.push(PossibleMove { from, to: fields[k], promoted_to: None });
        assert(fields@.take(k + 1) == fields@.take(k as int).push(fields@[k as int]));
        k = k + 1;
    }
    assert(fields@.take(fields.len() as int) == fields@);
}

} // verus!

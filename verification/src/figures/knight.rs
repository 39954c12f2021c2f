use vstd::prelude::*;
use crate::board::bitboard::{Bitboard, bits, set_fields, lemma_bits_and, lemma_bits_and_not};
use crate::board::board::{Chessboard, opponents_bits};
use crate::engine::engine::{PossibleMove, moves_from, push_moves_to_targets};
use crate::helper::moves_by_field::{knight_targets, knight_moves_for_square};

verus! {

/// Appends the knight's moves from `own_position` to empty squares.
pub fn get_possible_knight_moves(board: &Chessboard, own_position: usize, possible_moves: &mut Vec<PossibleMove>)
    ensures
        final(possible_moves)@ == old(possible_moves)@ + if own_position < 64 {
            moves_from(own_position, set_fields(knight_targets(own_position as int).difference(bits(board.positions.board))))
        } else {
            Seq::empty()
        },
{
    if own_position < 64 {
        let moves = knight_moves_for_square(own_position);
        let movement = Bitboard { board: moves.board & !board.positions.board };
        proof {
            lemma_bits_and_not(moves.board, board.positions.board);
        }
        push_moves_to_targets(own_position, movement, possible_moves);
    } else {
        assert(old(possible_moves)@ + Seq::<PossibleMove>::empty() =~= possible_moves@);
    }
}

/// The squares a knight on `own_position` attacks.
pub fn get_fields_threatened_by_knight(own_position: usize) -> (r: Bitboard)
    requires
        own_position < 64,
    ensures
        r@ == knight_targets(own_position as int),
{
    knight_moves_for_square(own_position)
}

/// Appends the knight's moves from `own_position` to the squares that stop a check.
pub fn get_possible_knight_moves_to_prevent_check(
    own_position: usize,
    prevent_check_fields: Bitboard,
    possible_moves: &mut Vec<PossibleMove>,
)
    requires
        own_position < 64,
    ensures
        final(possible_moves)@ == old(possible_moves)@ + moves_from(
            own_position,
            set_fields(knight_targets(own_position as int).intersect(prevent_check_fields@)),
        ),
{
    let knight = knight_moves_for_square(own_position);
    let moves = Bitboard { board: knight.board & prevent_check_fields.board };
    proof {
        lemma_bits_and(knight.board, prevent_check_fields.board);
    }
    push_moves_to_targets(own_position, moves, possible_moves);
}

/// Appends the knight's captures from `own_position`.
pub fn get_possible_knight_takes(board: &Chessboard, own_position: usize, possible_takes: &mut Vec<PossibleMove>)
    ensures
        final(possible_takes)@ == old(possible_takes)@ + if own_position < 64 {
            moves_from(own_position, set_fields(knight_targets(own_position as int).intersect(bits(opponents_bits(*board)))))
        } else {
            Seq::empty()
        },
{
    if own_position < 64 {
        let moves = knight_moves_for_square(own_position);
        let movement = Bitboard { board: moves.board & board.get_opponents().board };
        proof {
            lemma_bits_and(moves.board, opponents_bits(*board));
        }
        push_moves_to_targets(own_position, movement, possible_takes);
    } else {
        assert(old(possible_takes)@ + Seq::<PossibleMove>::empty() =~= possible_takes@);
    }
}

} // verus!

use vstd::prelude::*;
use crate::board::bitboard::{Bitboard, bit, bits, set_fields, lemma_bits_and, lemma_bits_and_not};
use crate::board::board::{Chessboard, opponents_bits, used_bits};
use crate::engine::engine::{PossibleMove, moves_from, push_moves_to_targets};
use crate::figures::color::Color;
use crate::helper::moves_by_field::{king_targets, king_moves_for_square};

verus! {

/// Appends the king's captures from `own_position` of pieces the opponent does not guard.
pub fn get_possible_king_takes(
    board: &Chessboard,
    own_position: usize,
    opponent_moves: Bitboard,
    possible_moves: &mut Vec<PossibleMove>,
)
    ensures
        final(possible_moves)@ == old(possible_moves)@ + if own_position < 64 {
            moves_from(
                own_position,
                set_fields(king_targets(own_position as int).difference(opponent_moves@).intersect(
                    bits(opponents_bits(*board)),
                )),
            )
        } else {
            Seq::empty()
        },
{
    if own_position < 64 {
        let moves_by_field = king_moves_for_square(own_position);
        let takes = Bitboard { board: moves_by_field.board & !opponent_moves.board & board.get_opponents().board };
        proof {
            lemma_bits_and_not(moves_by_field.board, opponent_moves.board);
            lemma_bits_and(moves_by_field.board & !opponent_moves.board, opponents_bits(*board));
        }
        push_moves_to_targets(own_position, takes, possible_moves);
    } else {
        assert(old(possible_moves)@ + Seq::<PossibleMove>::empty() =~= possible_moves@);
    }
}

/// Appends the king's steps out of check: squares without an own piece that the opponent does
/// not attack. Castling is never possible in check.
pub fn get_all_king_moves_in_check(
    board: &Chessboard,
    own_position: usize,
    opponent_moves: Bitboard,
    possible_moves: &mut Vec<PossibleMove>,
)
    ensures
        final(possible_moves)@ == old(possible_moves)@ + if own_position < 64 {
            moves_from(
                own_position,
                set_fields(king_targets(own_position as int).difference(
                    bits(used_bits(*board, board.current_move)),
                ).difference(opponent_moves@)),
            )
        } else {
            Seq::empty()
        },
{
    if own_position < 64 {
        let move_by_field = king_moves_for_square(own_position);
        let own = board.get_positions_by_current_player().board;
        let normal_movement = Bitboard { board: move_by_field.board & !own & !opponent_moves.board };
        proof {
            lemma_bits_and_not(move_by_field.board, own);
            lemma_bits_and_not(move_by_field.board & !own, opponent_moves.board);
        }
        push_moves_to_targets(own_position, normal_movement, possible_moves);
    } else {
        assert(old(possible_moves)@ + Seq::<PossibleMove>::empty() =~= possible_moves@);
    }
}

/// Castling to `new_king_position` over `field_between` (and the extra empty square of the long
/// side) needs those squares empty and the king's path unattacked.
pub open spec fn spec_is_possible_castle(
    board: Chessboard,
    opponent_moves: Bitboard,
    new_king_position: int,
    field_between: int,
    long_rochade_free_field: Option<usize>,
) -> bool {
    &&& (long_rochade_free_field matches Some(extra) ==> !bit(board.positions.board, extra as int))
    &&& !(bit(opponent_moves.board, field_between) || bit(opponent_moves.board, new_king_position)
        || bit(board.positions.board, field_between) || bit(board.positions.board, new_king_position))
}

fn is_possible_castle(
    board: &Chessboard,
    opponent_moves: Bitboard,
    new_king_position: usize,
    field_between: usize,
    long_rochade_free_field: Option<usize>,
) -> (r: bool)
    requires
        new_king_position < 64,
        field_between < 64,
        long_rochade_free_field matches Some(extra) ==> extra < 64,
    ensures
        r == spec_is_possible_castle(*board, opponent_moves, new_king_position as int, field_between as int, long_rochade_free_field),
{
    if let Some(extra_field) = long_rochade_free_field {
        if board.positions.field_is_used(extra_field) {
            return false;
        }
    }
    !(opponent_moves.field_is_used(field_between) || opponent_moves.field_is_used(new_king_position)
        || board.positions.field_is_used(field_between) || board.positions.field_is_used(
        new_king_position,
    ))
}

/// The king's castling move from `from` to `to`.
pub open spec fn castle_move(from: usize, to: usize) -> Seq<PossibleMove> {
    seq![PossibleMove { from, to, promoted_to: None }]
}

/// The castling moves `color` has: short first, then long.
pub open spec fn spec_castle_moves(board: Chessboard, opponent_moves: Bitboard, color: Color) -> Seq<PossibleMove> {
    match color {
        Color::White => (if board.castle.white_castle_short && spec_is_possible_castle(board, opponent_moves, 6, 5, None) {
            castle_move(4, 6)
        } else {
            Seq::empty()
        }) + (if board.castle.white_castle_long && spec_is_possible_castle(board, opponent_moves, 2, 3, Some(1usize)) {
            castle_move(4, 2)
        } else {
            Seq::empty()
        }),
        Color::Black => (if board.castle.black_castle_short && spec_is_possible_castle(board, opponent_moves, 62, 61, None) {
            castle_move(60, 62)
        } else {
            Seq::empty()
        }) + (if board.castle.black_castle_long && spec_is_possible_castle(board, opponent_moves, 58, 59, Some(57usize)) {
            castle_move(60, 58)
        } else {
            Seq::empty()
        }),
    }
}

fn white_castle(board: &Chessboard, opponent_moves: Bitboard, possible_moves: &mut Vec<PossibleMove>)
    ensures
        final(possible_moves)@ == old(possible_moves)@ + spec_castle_moves(*board, opponent_moves, Color::White),
{
    // short
    if board.castle.white_castle_short && is_possible_castle(board, opponent_moves, 6, 5, None) {
        possible_moves.push(PossibleMove { to: 6, from: 4, promoted_to: None });
    }
    // long
    if board.castle.white_castle_long && is_possible_castle(board, opponent_moves, 2, 3, Some(1)) {
        possible_moves.push(PossibleMove { to: 2, from: 4, promoted_to: None });
    }
    assert(possible_moves@ =~= old(possible_moves)@ + spec_castle_moves(*board, opponent_moves, Color::White));
}

fn black_castle(board: &Chessboard, opponent_moves: Bitboard, possible_moves: &mut Vec<PossibleMove>)
    ensures
        final(possible_moves)@ == old(possible_moves)@ + spec_castle_moves(*board, opponent_moves, Color::Black),
{
    // short
    if board.castle.black_castle_short && is_possible_castle(board, opponent_moves, 62, 61, None) {
        possible_moves.push(PossibleMove { to: 62, from: 60, promoted_to: None });
    }
    // long
    if board.castle.black_castle_long && is_possible_castle(board, opponent_moves, 58, 59, Some(57)) {
        possible_moves.push(PossibleMove { to: 58, from: 60, promoted_to: None });
    }
    assert(possible_moves@ =~= old(possible_moves)@ + spec_castle_moves(*board, opponent_moves, Color::Black));
}

/// The king moves of `own_color` from `own_position`: steps to empty unattacked squares, then
/// castling when the side still may castle and the king is not attacked.
pub open spec fn spec_king_moves(board: Chessboard, own_position: usize, own_color: Color, opponent_moves: Bitboard) -> Seq<PossibleMove> {
    (if own_position < 64 {
        moves_from(
            own_position,
            set_fields(king_targets(own_position as int).difference(bits(board.positions.board)).difference(opponent_moves@)),
        )
    } else {
        Seq::empty()
    }) + if board.castle.spec_can_castle(own_color) && !bit(opponent_moves.board, own_position as int) {
        spec_castle_moves(board, opponent_moves, own_color)
    } else {
        Seq::empty()
    }
}

/// Appends the king's quiet moves, including castling (see `spec_king_moves`).
pub fn get_possible_king_moves(
    board: &Chessboard,
    own_position: usize,
    own_color: Color,
    opponent_moves: Bitboard,
    possible_moves: &mut Vec<PossibleMove>,
)
    requires
        board.castle.spec_can_castle(own_color) ==> own_position < 64,
    ensures
        final(possible_moves)@ == old(possible_moves)@ + spec_king_moves(*board, own_position, own_color, opponent_moves),
{
    let ghost start = possible_moves@;
    if own_position < 64 {
        let move_by_field = king_moves_for_square(own_position);
        let normal_movement = Bitboard {
            board: move_by_field.board & !board.positions.board & !opponent_moves.board,
        };
        proof {
            lemma_bits_and_not(move_by_field.board, board.positions.board);
            lemma_bits_and_not(move_by_field.board & !board.positions.board, opponent_moves.board);
        }
        push_moves_to_targets(own_position, normal_movement, possible_moves);
    }
    let ghost mid = possible_moves@;
    // castle
    if board.castle.can_castle(own_color) && !opponent_moves.field_is_used(own_position) {
        match own_color {
            Color::White => white_castle(&board, opponent_moves, possible_moves),
            Color::Black => black_castle(&board, opponent_moves, possible_moves),
        }
    }
    assert(possible_moves@ =~= start + spec_king_moves(*board, own_position, own_color, opponent_moves));
}

/// The squares a king on `own_position` attacks.
pub fn get_fields_threatened_by_king(own_position: usize) -> (r: Bitboard)
    requires
        own_position < 64,
    ensures
        r@ == king_targets(own_position as int),
{
    king_moves_for_square(own_position)
}

} // verus!

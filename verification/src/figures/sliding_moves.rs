use vstd::prelude::*;
use crate::board::bitboard::{Bitboard, bits, set_fields, lemma_bits_and, lemma_bits_and_not, lemma_bits_or};
use crate::board::board::{Chessboard, opponents_bits};
use crate::engine::engine::{PossibleMove, moves_from, push_moves_to_targets};
use crate::helper::magic_bitboards::helper::{attacks_on_rays, rook_attacks, bishop_attacks};
use crate::helper::moves_by_field::get_moves_for_field;

verus! {

/// Squares a rook on `position` attacks with `occupied` as blockers.
pub fn rook_attacks_from(position: usize, occupied: Bitboard) -> (r: Bitboard)
    requires
        position < 64,
    ensures
        r@ == rook_attacks(position as int, occupied.board),
{
    let rays = get_moves_for_field(position);
    attacks_on_rays(&rays, occupied, true)
}

/// Squares a bishop on `position` attacks with `occupied` as blockers.
pub fn bishop_attacks_from(position: usize, occupied: Bitboard) -> (r: Bitboard)
    requires
        position < 64,
    ensures
        r@ == bishop_attacks(position as int, occupied.board),
{
    let rays = get_moves_for_field(position);
    attacks_on_rays(&rays, occupied, false)
}

/// The board's pieces without the square `king_position`.
pub open spec fn without_king(board: Chessboard, king_position: int) -> u64 {
    board.positions.board & !(1u64 << (king_position as u64))
}

/// Squares a queen on `position` attacks, looking through the own king on `king_position`.
pub fn get_fields_threatened_by_queen(board: &Chessboard, position: usize, king_position: usize) -> (r: Bitboard)
    requires
        position < 64,
        king_position < 64,
    ensures
        r@ == bishop_attacks(position as int, without_king(*board, king_position as int)).union(
            rook_attacks(position as int, without_king(*board, king_position as int)),
        ),
{
    let bishop_threats = get_fields_threatened_by_bishop(&board, position, king_position);
    let rook_threats = get_fields_threatened_by_rook(&board, position, king_position);
    proof {
        lemma_bits_or(bishop_threats.board, rook_threats.board);
    }
    Bitboard { board: bishop_threats.board | rook_threats.board }
}

/// Squares a bishop on `position` attacks, looking through the own king on `king_position`.
pub fn get_fields_threatened_by_bishop(board: &Chessboard, position: usize, king_position: usize) -> (r: Bitboard)
    requires
        position < 64,
        king_position < 64,
    ensures
        r@ == bishop_attacks(position as int, without_king(*board, king_position as int)),
{
    let mut board_without_king = board.positions;
    board_without_king.remove_field(king_position);
    bishop_attacks_from(position, board_without_king)
}

/// Squares a rook on `position` attacks, looking through the own king on `king_position`.
pub fn get_fields_threatened_by_rook(board: &Chessboard, position: usize, king_position: usize) -> (r: Bitboard)
    requires
        position < 64,
        king_position < 64,
    ensures
        r@ == rook_attacks(position as int, without_king(*board, king_position as int)),
{
    // remove own king to prevent bug where king moves on same line as attacker "as field is not attacked" (he is blocking it himself)
    let mut board_without_king = board.positions;
    board_without_king.remove_field(king_position);
    rook_attacks_from(position, board_without_king)
}

/// Quiet bishop moves: attacked squares that are empty.
pub open spec fn spec_bishop_moves(board: Chessboard, position: usize) -> Seq<PossibleMove> {
    moves_from(position, set_fields(bishop_attacks(position as int, board.positions.board).difference(bits(board.positions.board))))
}

/// Quiet rook moves: attacked squares that are empty.
pub open spec fn spec_rook_moves(board: Chessboard, position: usize) -> Seq<PossibleMove> {
    moves_from(position, set_fields(rook_attacks(position as int, board.positions.board).difference(bits(board.positions.board))))
}

/// Bishop captures: attacked squares holding an opponent piece.
pub open spec fn spec_bishop_takes(board: Chessboard, position: usize) -> Seq<PossibleMove> {
    moves_from(position, set_fields(bishop_attacks(position as int, board.positions.board).intersect(bits(opponents_bits(board)))))
}

/// Rook captures: attacked squares holding an opponent piece.
pub open spec fn spec_rook_takes(board: Chessboard, position: usize) -> Seq<PossibleMove> {
    moves_from(position, set_fields(rook_attacks(position as int, board.positions.board).intersect(bits(opponents_bits(board)))))
}

/// Bishop moves onto squares that stop a check.
pub open spec fn spec_bishop_prevent(board: Chessboard, position: usize, prevent_check_fields: Bitboard) -> Seq<PossibleMove> {
    moves_from(position, set_fields(bishop_attacks(position as int, board.positions.board).intersect(prevent_check_fields@)))
}

/// Rook moves onto squares that stop a check.
pub open spec fn spec_rook_prevent(board: Chessboard, position: usize, prevent_check_fields: Bitboard) -> Seq<PossibleMove> {
    moves_from(position, set_fields(rook_attacks(position as int, board.positions.board).intersect(prevent_check_fields@)))
}

/// Appends the queen's quiet moves: the bishop's, then the rook's.
pub fn get_possible_queen_moves(board: &Chessboard, position: usize, possible_moves: &mut Vec<PossibleMove>)
    requires
        position < 64,
    ensures
        final(possible_moves)@ == old(possible_moves)@ + spec_bishop_moves(*board, position) + spec_rook_moves(*board, position),
{
    get_possible_bishop_moves(&board, position, possible_moves);
    get_possible_rook_moves(&board, position, possible_moves);
}

/// Appends the bishop's quiet moves.
pub fn get_possible_bishop_moves(board: &Chessboard, position: usize, possible_moves: &mut Vec<PossibleMove>)
    requires
        position < 64,
    ensures
        final(possible_moves)@ == old(possible_moves)@ + spec_bishop_moves(*board, position),
{
    let magic_moves = bishop_attacks_from(position, board.positions);
    let moves = Bitboard { board: magic_moves.board & !board.positions.board };
    proof {
        lemma_bits_and_not(magic_moves.board, board.positions.board);
    }
    push_moves_to_targets(position, moves, possible_moves);
}

/// Appends the rook's quiet moves.
pub fn get_possible_rook_moves(board: &Chessboard, position: usize, possible_moves: &mut Vec<PossibleMove>)
    requires
        position < 64,
    ensures
        final(possible_moves)@ == old(possible_moves)@ + spec_rook_moves(*board, position),
{
    let magic_moves = rook_attacks_from(position, board.positions);
    let moves = Bitboard { board: magic_moves.board & !board.positions.board };
    proof {
        lemma_bits_and_not(magic_moves.board, board.positions.board);
    }
    push_moves_to_targets(position, moves, possible_moves);
}

/// Appends the rook's moves onto the squares that stop a check.
pub fn get_possible_rook_moves_to_prevent_check(
    board: &Chessboard,
    position: usize,
    prevent_check_fields: Bitboard,
    possible_moves: &mut Vec<PossibleMove>,
)
    requires
        position < 64,
    ensures
        final(possible_moves)@ == old(possible_moves)@ + spec_rook_prevent(*board, position, prevent_check_fields),
{
    let magic_moves = rook_attacks_from(position, board.positions);
    let moves = Bitboard { board: magic_moves.board & prevent_check_fields.board };
    proof {
        lemma_bits_and(magic_moves.board, prevent_check_fields.board);
    }
    push_moves_to_targets(position, moves, possible_moves);
}

/// Appends the bishop's captures.
pub fn get_possible_bishop_takes(board: &Chessboard, position: usize, possible_moves: &mut Vec<PossibleMove>)
    requires
        position < 64,
    ensures
        final(possible_moves)@ == old(possible_moves)@ + spec_bishop_takes(*board, position),
{
    let magic_moves = bishop_attacks_from(position, board.positions);
    let moves = Bitboard { board: magic_moves.board & board.get_opponents().board };
    proof {
        lemma_bits_and(magic_moves.board, opponents_bits(*board));
    }
    push_moves_to_targets(position, moves, possible_moves);
}

/// Appends the bishop's moves onto the squares that stop a check.
pub fn get_possible_bishop_moves_to_prevent_check(
    board: &Chessboard,
    position: usize,
    prevent_check_fields: Bitboard,
    possible_moves: &mut Vec<PossibleMove>,
)
    requires
        position < 64,
    ensures
        final(possible_moves)@ == old(possible_moves)@ + spec_bishop_prevent(*board, position, prevent_check_fields),
{
    let magic_moves = bishop_attacks_from(position, board.positions);
    let moves = Bitboard { board: magic_moves.board & prevent_check_fields.board };
    proof {
        lemma_bits_and(magic_moves.board, prevent_check_fields.board);
    }
    push_moves_to_targets(position, moves, possible_moves);
}

/// Appends the rook's captures.
pub fn get_possible_rook_takes(board: &Chessboard, position: usize, possible_moves: &mut Vec<PossibleMove>)
    requires
        position < 64,
    ensures
        final(possible_moves)@ == old(possible_moves)@ + spec_rook_takes(*board, position),
{
    let magic_moves = rook_attacks_from(position, board.positions);
    let moves = Bitboard { board: magic_moves.board & board.get_opponents().board };
    proof {
        lemma_bits_and(magic_moves.board, opponents_bits(*board));
    }
    push_moves_to_targets(position, moves, possible_moves);
}

/// Appends the queen's captures: the rook's, then the bishop's.
pub fn get_possible_queen_takes(board: &Chessboard, position: usize, possible_moves: &mut Vec<PossibleMove>)
    requires
        position < 64,
    ensures
        final(possible_moves)@ == old(possible_moves)@ + spec_rook_takes(*board, position) + spec_bishop_takes(*board, position),
{
    get_possible_rook_takes(board, position, possible_moves);
    get_possible_bishop_takes(board, position, possible_moves);
}

/// Appends the queen's moves onto the squares that stop a check: the rook's, then the bishop's.
pub fn get_possible_queen_moves_to_prevent_check(
    board: &Chessboard,
    position: usize,
    prevent_check_fields: Bitboard,
    possible_moves: &mut Vec<PossibleMove>,
)
    requires
        position < 64,
    ensures
        final(possible_moves)@ == old(possible_moves)@ + spec_rook_prevent(*board, position, prevent_check_fields)
            + spec_bishop_prevent(*board, position, prevent_check_fields),
{
    get_possible_rook_moves_to_prevent_check(board, position, prevent_check_fields, possible_moves);
    get_possible_bishop_moves_to_prevent_check(board, position, prevent_check_fields, possible_moves);
}

} // verus!

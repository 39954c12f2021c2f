use vstd::prelude::*;
use std::collections::HashMap;
use crate::board::bitboard::bit;
use crate::board::board::{Chessboard, opponents_bits};
use crate::engine::checked::{spec_is_line_attacker, is_line_attacker};
use crate::helper::moves_by_field::{get_moves_for_field, ray, ray_in_board, file_of, rank_of, min_int};

verus! {

broadcast use vstd::std_specs::hash::group_hash_axioms;

/// Walking out from the king along `ray` from index `k`, where `candidate` is the one own piece
/// met so far: the own piece that stands alone between the king and an opponent line attacker
/// of the matching kind, if there is one.
pub open spec fn spec_pin_on_ray(board: Chessboard, ray: Seq<usize>, rook_like: bool, k: int, candidate: Option<usize>) -> Option<usize>
    decreases ray.len() - k,
{
    if k >= ray.len() || k < 0 {
        None
    } else {
        let single = ray[k];
        if bit(board.positions.board, single as int) {
            if bit(opponents_bits(board), single as int) {
                if spec_is_line_attacker(board, single as int, rook_like) {
                    candidate
                } else {
                    None
                }
            } else if candidate is Some {
                None
            } else {
                spec_pin_on_ray(board, ray, rook_like, k + 1, Some(single))
            }
        } else {
            spec_pin_on_ray(board, ray, rook_like, k + 1, candidate)
        }
    }
}

/// `pins` with the piece pinned along `ray` (if any) mapped to that ray.
pub open spec fn add_pin(pins: Map<usize, Seq<usize>>, board: Chessboard, ray: Seq<usize>, rook_like: bool) -> Map<usize, Seq<usize>> {
    match spec_pin_on_ray(board, ray, rook_like, 0, None) {
        Some(p) => pins.insert(p, ray),
        None => pins,
    }
}

/// The pieces of the side to move that are pinned to its king on `king_position`, each mapped to
/// the ray from the king through it. The straight rays are looked at first (left, right,
/// forward, back), then the diagonals (left back, left forward, right back, right forward); a
/// later ray wins for a piece met twice.
pub open spec fn spec_pinned_pieces(board: Chessboard, king_position: int) -> Map<usize, Seq<usize>> {
    if 0 <= king_position < 64 {
        let s = king_position;
        let f = file_of(s);
        let r = rank_of(s);
        let m1 = add_pin(Map::empty(), board, ray(s, -1, f), true);
        let m2 = add_pin(m1, board, ray(s, 1, 7 - f), true);
        let m3 = add_pin(m2, board, ray(s, 8, 7 - r), true);
        let m4 = add_pin(m3, board, ray(s, -8, r), true);
        let m5 = add_pin(m4, board, ray(s, -9, min_int(f, r)), false);
        let m6 = add_pin(m5, board, ray(s, 7, min_int(f, 7 - r)), false);
        let m7 = add_pin(m6, board, ray(s, -7, min_int(7 - f, r)), false);
        add_pin(m7, board, ray(s, 9, min_int(7 - f, 7 - r)), false)
    } else {
        Map::empty()
    }
}

/// The map of pinned pieces, its rays taken as sequences.
pub open spec fn pins_match(pins: Map<usize, Vec<usize>>, expected: Map<usize, Seq<usize>>) -> bool {
    &&& forall|k: usize| pins.contains_key(k) <==> expected.contains_key(k)
    &&& forall|k: usize| #[trigger] pins.contains_key(k) ==> pins[k]@ == expected[k]
}

/// The pieces of the side to move pinned to its king, each with the ray it may still move on.
pub fn get_pinned_pieces_and_possible_moves(board: &Chessboard, king_position: &usize) -> (pinned_pieces: HashMap<usize, Vec<usize>>)
    ensures
        pins_match(pinned_pieces@, spec_pinned_pieces(*board, *king_position as int)),
{
    let mut pinned_pieces: HashMap<usize, Vec<usize>> = HashMap::new();
    if *king_position < 64 {
        let moves = get_moves_for_field(*king_position);
        let ghost s = *king_position as int;
        let ghost m0 = Map::<usize, Seq<usize>>::empty();
        assert(pins_match(pinned_pieces@, m0));
        check_and_add_pin_one_direction(board, &moves.left, &mut pinned_pieces, true, Ghost(m0));
        let ghost m1 = add_pin(m0, *board, moves.left@, true);
        check_and_add_pin_one_direction(board, &moves.right, &mut pinned_pieces, true, Ghost(m1));
        let ghost m2 = add_pin(m1, *board, moves.right@, true);
        check_and_add_pin_one_direction(board, &moves.forward, &mut pinned_pieces, true, Ghost(m2));
        let ghost m3 = add_pin(m2, *board, moves.forward@, true);
        check_and_add_pin_one_direction(board, &moves.back, &mut pinned_pieces, true, Ghost(m3));
        let ghost m4 = add_pin(m3, *board, moves.back@, true);
        check_and_add_pin_one_direction(board, &moves.left_back, &mut pinned_pieces, false, Ghost(m4));
        let ghost m5 = add_pin(m4, *board, moves.left_back@, false);
        check_and_add_pin_one_direction(board, &moves.left_forward, &mut pinned_pieces, false, Ghost(m5));
        let ghost m6 = add_pin(m5, *board, moves.left_forward@, false);
        check_and_add_pin_one_direction(board, &moves.right_back, &mut pinned_pieces, false, Ghost(m6));
        let ghost m7 = add_pin(m6, *board, moves.right_back@, false);
        check_and_add_pin_one_direction(board, &moves.right_forward, &mut pinned_pieces, false, Ghost(m7));
    }
    pinned_pieces
}

/// Adds the piece pinned along `moves` (if any) to `pinned_pieces`, mapped to a copy of the ray.
fn check_and_add_pin_one_direction(
    board: &Chessboard,
    moves: &Vec<usize>,
    pinned_pieces: &mut HashMap<usize, Vec<usize>>,
    rook_like: bool,
    Ghost(before): Ghost<Map<usize, Seq<usize>>>,
)
    requires
        ray_in_board(moves@),
        pins_match(old(pinned_pieces)@, before),
    ensures
        pins_match(final(pinned_pieces)@, add_pin(before, *board, moves@, rook_like)),
{
    let mut possible_pinned_piece: Option<usize> = None;
    let mut i: usize = 0;
    while i < moves.len()
        invariant
            i <= moves.len(),
            ray_in_board(moves@),
            pins_match(pinned_pieces@, before),
            possible_pinned_piece matches Some(p) ==> p < 64,
            spec_pin_on_ray(*board, moves@, rook_like, 0, None)
                == spec_pin_on_ray(*board, moves@, rook_like, i as int, possible_pinned_piece),
        decreases moves.len() - i,
    {
        let single = moves[i];
        if board.positions.field_is_used(single) {
            if board.get_opponents().field_is_used(single) {
                if is_line_attacker(board, single, rook_like) {
                    if let Some(pinned_piece) = possible_pinned_piece {
                        let ray_copy = moves.clone();
                        assert(ray_copy@ =~= moves@);
                        pinned_pieces.insert(pinned_piece, ray_copy);
                    }
                    return;
                }
                // the opponent's piece here cannot pin
                return;
            }
            // a second own piece on the ray: neither of them is pinned
            if possible_pinned_piece.is_some() {
                return;
            }
            possible_pinned_piece = Some(single);
        }
        i = i + 1;
    }
}

} // verus!

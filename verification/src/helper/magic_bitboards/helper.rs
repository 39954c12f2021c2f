use vstd::prelude::*;
use crate::board::bitboard::{Bitboard, bit};
use crate::helper::moves_by_field::{MoveInEveryDirection, ray_in_board, rook_rays_in_board, bishop_rays_in_board, ray, file_of, rank_of, min_int};
use crate::evaluation::KingPosition;
use crate::figures::color::Color;
use crate::helper::magic_bitboards::magic_bitboard::MagicBitboard;
use std::collections::HashMap;

verus! {

/// The table index of `blockers`: its relevant squares times the magic factor (wrapping),
/// shifted right by the board's index.
pub open spec fn spec_magic_index(blockers: u64, magic_bitboard: MagicBitboard) -> u64 {
    vstd::wrapping::u64_specs::wrapping_mul(blockers & magic_bitboard.relevant_fields.board, magic_bitboard.magic_key)
        >> magic_bitboard.index
}

/// Gets the index into the table of possible moves for the given blockers.
pub fn get_magic_index(blockers: Bitboard, magic_bitboard: &MagicBitboard) -> (r: usize)
    requires
        magic_bitboard.index < 64,
    ensures
        r == spec_magic_index(blockers.board, *magic_bitboard) as usize,
{
    let relevant_pieces = Bitboard { board: blockers.board & magic_bitboard.relevant_fields.board };
    let hash = relevant_pieces.board.wrapping_mul(magic_bitboard.magic_key);
    (hash >> magic_bitboard.index) as usize
}

/// The squares in front of a castled king that its pawns should keep: three squares on the
/// second rank of `color`, toward the side it castled to; none for a king in the center.
pub open spec fn king_safety_squares(color: Color, side: KingPosition) -> Set<int> {
    match side {
        KingPosition::CENTER => Set::empty(),
        KingPosition::LEFT => match color {
            Color::White => set![8, 9, 10],
            Color::Black => set![53, 54, 55],
        },
        KingPosition::RIGHT => match color {
            Color::White => set![13, 14, 15],
            Color::Black => set![48, 49, 50],
        },
    }
}

fn three_squares(a: usize, b: usize, c: usize) -> (r: Bitboard)
    requires
        a < 64,
        b < 64,
        c < 64,
    ensures
        r@ == set![a as int, b as int, c as int],
{
    let mut r = Bitboard::new();
    proof {
        crate::board::bitboard::lemma_bits_zero(r.board);
    }
    r.set_field(a);
    r.set_field(b);
    r.set_field(c);
    assert(r@ =~= set![a as int, b as int, c as int]);
    r
}

/// Black's king safety squares are white's seen from black's side (square 63 - s).
pub proof fn law_king_safety_squares_mirror(side: KingPosition, s: int)
    ensures
        king_safety_squares(Color::Black, side).contains(s) <==> king_safety_squares(Color::White, side).contains(63 - s),
{
}

/// The king safety squares for each color and each side its king may stand on.
pub fn init_king_safety_bitboards() -> (r: [[Bitboard; 3]; 2])
    ensures
        forall|c: Color, p: KingPosition| (#[trigger] r[c.idx()][p.idx()])@ == king_safety_squares(c, p),
{
    let none = Bitboard::new();
    proof {
        crate::board::bitboard::lemma_bits_zero(none.board);
    }
    let white_left = three_squares(8, 9, 10);
    let white_right = three_squares(13, 14, 15);
    let black_left = three_squares(53, 54, 55);
    let black_right = three_squares(48, 49, 50);
    let r = [[none, white_left, white_right], [none, black_left, black_right]];
    assert forall|c: Color, p: KingPosition| (#[trigger] r[c.idx()][p.idx()])@ == king_safety_squares(c, p) by {
        assert(none@ =~= Set::<int>::empty());
    }
    r
}

/// How many squares of `ray`, counted from `k`, a slider reaches: up to and including
/// the first occupied square, or to the end of the ray.
pub open spec fn reach_from(ray: Seq<usize>, occupied: u64, k: int) -> int
    decreases ray.len() - k,
{
    if k >= ray.len() || k < 0 {
        ray.len() as int
    } else if bit(occupied, ray[k] as int) {
        k + 1
    } else {
        reach_from(ray, occupied, k + 1)
    }
}

/// The squares of `ray` a slider reaches: everything up to and including the first occupied one.
pub open spec fn ray_attacks(ray: Seq<usize>, occupied: u64) -> Set<int> {
    prefix_squares(ray, reach_from(ray, occupied, 0))
}

/// The first `n` squares of `ray`.
pub open spec fn prefix_squares(ray: Seq<usize>, n: int) -> Set<int> {
    Set::new(|t: int| exists|k: int| 0 <= k < n && #[trigger] ray[k] as int == t)
}

/// One more square of the ray adds that square.
pub proof fn lemma_prefix_squares_extend(ray: Seq<usize>, n: int)
    requires
        0 <= n < ray.len(),
    ensures
        prefix_squares(ray, n + 1) == prefix_squares(ray, n).insert(ray[n] as int),
{
    assert forall|t: int| #[trigger] prefix_squares(ray, n + 1).contains(t) implies prefix_squares(
        ray,
        n,
    ).insert(ray[n] as int).contains(t) by {
        let k = choose|k: int| 0 <= k < n + 1 && #[trigger] ray[k] as int == t;
        if k < n {
            assert(prefix_squares(ray, n).contains(t));
        }
    }
    assert forall|t: int| #[trigger] prefix_squares(ray, n).insert(ray[n] as int).contains(t)
        implies prefix_squares(ray, n + 1).contains(t) by {
        if t == ray[n] as int {
            assert(0 <= n < n + 1 && ray[n] as int == t);
        } else {
            let k = choose|k: int| 0 <= k < n && #[trigger] ray[k] as int == t;
            assert(0 <= k < n + 1 && ray[k] as int == t);
        }
    }
    assert(prefix_squares(ray, n + 1) =~= prefix_squares(ray, n).insert(ray[n] as int));
}

/// Squares a rook reaches along the straight rays of `m`.
pub open spec fn rook_attacks_on(m: MoveInEveryDirection, occupied: u64) -> Set<int> {
    ray_attacks(m.left@, occupied).union(ray_attacks(m.right@, occupied)).union(
        ray_attacks(m.forward@, occupied),
    ).union(ray_attacks(m.back@, occupied))
}

/// Squares a bishop reaches along the diagonal rays of `m`.
pub open spec fn bishop_attacks_on(m: MoveInEveryDirection, occupied: u64) -> Set<int> {
    ray_attacks(m.left_back@, occupied).union(ray_attacks(m.left_forward@, occupied)).union(
        ray_attacks(m.right_forward@, occupied),
    ).union(ray_attacks(m.right_back@, occupied))
}

proof fn lemma_reach_step(ray: Seq<usize>, occupied: u64, i: int)
    requires
        0 <= i < ray.len(),
        !bit(occupied, ray[i] as int),
    ensures
        reach_from(ray, occupied, i) == reach_from(ray, occupied, i + 1),
{
}

/// A slider reaches between `i` and all squares of the ray.
pub proof fn lemma_reach_bounds(ray: Seq<usize>, occupied: u64, i: int)
    requires
        0 <= i <= ray.len(),
    ensures
        i <= reach_from(ray, occupied, i) <= ray.len(),
    decreases ray.len() - i,
{
    if i < ray.len() && !bit(occupied, ray[i] as int) {
        lemma_reach_bounds(ray, occupied, i + 1);
    }
}

/// Adds the squares of `moves` up to and including the first one in `blockers`.
pub fn itter_direction(moves: &Vec<usize>, possible_moves: &mut Bitboard, blockers: Bitboard)
    requires
        ray_in_board(moves@),
    ensures
        final(possible_moves)@ == old(possible_moves)@.union(ray_attacks(moves@, blockers.board)),
{
    let ghost start = possible_moves@;
    let ghost r = moves@;
    let ghost occ = blockers.board;
    let mut i: usize = 0;
    while i < moves.len()
        invariant
            i <= moves.len(),
            r == moves@,
            occ == blockers.board,
            start == old(possible_moves)@,
            ray_in_board(r),
            reach_from(r, occ, 0) == reach_from(r, occ, i as int),
            possible_moves@ == start.union(prefix_squares(r, i as int)),
        decreases moves.len() - i,
    {
        let single = moves[i];
        possible_moves.set_field(single);
        proof {
            lemma_prefix_squares_extend(r, i as int);
            assert(possible_moves@ =~= start.union(prefix_squares(r, i + 1)));
        }
        if blockers.field_is_used(single) {
            proof {
                assert(reach_from(r, occ, i as int) == i + 1);
                assert(possible_moves@ =~= start.union(ray_attacks(r, occ)));
            }
            return;
        }
        proof {
            lemma_reach_step(r, occ, i as int);
        }
        i = i + 1;
    }
    proof {
        assert(reach_from(r, occ, i as int) == r.len());
        assert(possible_moves@ =~= start.union(ray_attacks(r, occ)));
    }
}


/// Squares a rook on `s` reaches given the `occupied` squares.
pub open spec fn rook_attacks(s: int, occupied: u64) -> Set<int> {
    let f = file_of(s);
    let r = rank_of(s);
    ray_attacks(ray(s, -1, f), occupied).union(ray_attacks(ray(s, 1, 7 - f), occupied)).union(
        ray_attacks(ray(s, 8, 7 - r), occupied),
    ).union(ray_attacks(ray(s, -8, r), occupied))
}

/// Squares a bishop on `s` reaches given the `occupied` squares.
pub open spec fn bishop_attacks(s: int, occupied: u64) -> Set<int> {
    let f = file_of(s);
    let r = rank_of(s);
    ray_attacks(ray(s, -9, min_int(f, r)), occupied).union(
        ray_attacks(ray(s, 7, min_int(f, 7 - r)), occupied),
    ).union(ray_attacks(ray(s, 9, min_int(7 - f, 7 - r)), occupied)).union(
        ray_attacks(ray(s, -7, min_int(7 - f, r)), occupied),
    )
}

/// Attacks along the straight rays of `m` for a rook, along the diagonals otherwise.
pub open spec fn slider_attacks_on(m: MoveInEveryDirection, occupied: u64, is_rook: bool) -> Set<int> {
    if is_rook {
        rook_attacks_on(m, occupied)
    } else {
        bishop_attacks_on(m, occupied)
    }
}

/// Attacks along the rays of `relevant_moves`, straight ones for a rook and diagonal ones otherwise.
pub fn attacks_on_rays(relevant_moves: &MoveInEveryDirection, blockers: Bitboard, is_rook: bool) -> (possible_moves: Bitboard)
    requires
        is_rook ==> rook_rays_in_board(*relevant_moves),
        !is_rook ==> bishop_rays_in_board(*relevant_moves),
    ensures
        possible_moves@ == slider_attacks_on(*relevant_moves, blockers.board, is_rook),
{
    let mut possible_moves = Bitboard::new();
    if is_rook {
        itter_direction(&relevant_moves.left, &mut possible_moves, blockers);
        itter_direction(&relevant_moves.right, &mut possible_moves, blockers);
        itter_direction(&relevant_moves.forward, &mut possible_moves, blockers);
        itter_direction(&relevant_moves.back, &mut possible_moves, blockers);
    } else {
        itter_direction(&relevant_moves.left_back, &mut possible_moves, blockers);
        itter_direction(&relevant_moves.left_forward, &mut possible_moves, blockers);
        itter_direction(&relevant_moves.right_forward, &mut possible_moves, blockers);
        itter_direction(&relevant_moves.right_back, &mut possible_moves, blockers);
    }
    assert(possible_moves@ =~= slider_attacks_on(*relevant_moves, blockers.board, is_rook));
    possible_moves
}

/// Attacks of a rook (`is_rook`) or bishop on `position` along the rays stored for it in
/// `moves_by_field`, stopping at the `blockers`.
pub fn get_valid_moves_for_position_with_given_blockers(
    blockers: Bitboard,
    position: usize,
    moves_by_field: &HashMap<usize, MoveInEveryDirection>,
    is_rook: bool,
) -> (possible_moves: Bitboard)
    requires
        moves_by_field@.contains_key(position),
        is_rook ==> rook_rays_in_board(moves_by_field@[position]),
        !is_rook ==> bishop_rays_in_board(moves_by_field@[position]),
    ensures
        possible_moves@ == slider_attacks_on(moves_by_field@[position], blockers.board, is_rook),
{
    broadcast use vstd::std_specs::hash::group_hash_axioms;
    let relevant_moves = moves_by_field.get(&position).unwrap();
    attacks_on_rays(relevant_moves, blockers, is_rook)
}

} // verus!


use vstd::prelude::*;
use std::collections::HashMap;
use crate::board::bitboard::{Bitboard, bit, bits, fields_of, lemma_bits_and, lemma_bits_eq, lemma_bits_zero};
use crate::helper::magic_bitboards::helper::{
    get_magic_index, get_valid_moves_for_position_with_given_blockers, slider_attacks_on, spec_magic_index,
    ray_attacks, reach_from, lemma_reach_bounds, rook_attacks, bishop_attacks,
};
use crate::helper::magic_bitboards::init_with_predefined::{
    attack_table, lemma_magic_board_props, lemma_visited, law_magic_index_in_table, law_walk_fills_the_table,
    relevant_squares, slider_attacks, spec_magic_board, spec_moves_table, subset_at, table_size, tables_match,
    visited_subsets, within,
};
use crate::helper::magic_bitboards::magic_bitboard::MagicBitboard;
use crate::helper::moves_by_field::{
    MoveInEveryDirection, bishop_rays_in_board, lemma_rays_in_board, rook_rays_in_board, ray, file_of, rank_of, min_int,
    step_square, step_squares,
};

verus! {

/// The attack table of a candidate magic board after the first `n` subsets of the relevant
/// squares: each subset's attacks go to its magic index, unless another subset with other
/// attacks took that entry first, which makes the candidate fail (`None`).
pub open spec fn checked_table(position: int, magic_bitboard: MagicBitboard, is_rook: bool, n: nat) -> Option<Seq<Set<int>>>
    decreases n,
{
    if n == 0 {
        Some(Seq::new(table_size(magic_bitboard), |j: int| Set::<int>::empty()))
    } else {
        match checked_table(position, magic_bitboard, is_rook, (n - 1) as nat) {
            None => None,
            Some(t) => {
                let b = subset_at(magic_bitboard.relevant_fields.board, (n - 1) as nat);
                let idx = spec_magic_index(b, magic_bitboard) as int;
                let moves = slider_attacks(position, b, is_rook);
                if t[idx] == Set::<int>::empty() {
                    Some(t.update(idx, moves))
                } else if t[idx] != moves {
                    None
                } else {
                    Some(t)
                }
            },
        }
    }
}

/// The result of trying a candidate magic board on every subset of its relevant squares.
pub open spec fn spec_possible_moves_table(position: int, magic_bitboard: MagicBitboard, is_rook: bool) -> Option<Seq<Set<int>>> {
    checked_table(
        position,
        magic_bitboard,
        is_rook,
        visited_subsets(magic_bitboard.relevant_fields.board, 1, table_size(magic_bitboard)),
    )
}

proof fn lemma_checked_table_len(position: int, magic_bitboard: MagicBitboard, is_rook: bool, n: nat)
    requires
        1 <= magic_bitboard.index < 64,
    ensures
        checked_table(position, magic_bitboard, is_rook, n) matches Some(t) ==> t.len() == table_size(magic_bitboard),
    decreases n,
{
    if n > 0 {
        lemma_checked_table_len(position, magic_bitboard, is_rook, (n - 1) as nat);
        let b = subset_at(magic_bitboard.relevant_fields.board, (n - 1) as nat);
        law_magic_index_in_table(b, magic_bitboard);
    }
}

proof fn lemma_checked_table_stays_none(position: int, magic_bitboard: MagicBitboard, is_rook: bool, k: nat, n: nat)
    requires
        k <= n,
        checked_table(position, magic_bitboard, is_rook, k) is None,
    ensures
        checked_table(position, magic_bitboard, is_rook, n) is None,
    decreases n - k,
{
    if k < n {
        lemma_checked_table_stays_none(position, magic_bitboard, is_rook, k, (n - 1) as nat);
    }
}

proof fn lemma_visited_at_least(mask: u64, k: nat, bound: nat, n: nat)
    requires
        1 <= k <= n <= bound,
        forall|j: nat| k <= j < n ==> subset_at(mask, j) != 0,
    ensures
        visited_subsets(mask, k, bound) >= n,
    decreases n - k,
{
    if k < n {
        lemma_visited_at_least(mask, k + 1, bound, n);
    } else {
        lemma_visited_from_at_least(mask, k, bound);
    }
}

proof fn lemma_visited_from_at_least(mask: u64, k: nat, bound: nat)
    requires
        k <= bound,
    ensures
        visited_subsets(mask, k, bound) >= k,
    decreases bound - k,
{
    if k < bound && subset_at(mask, k) != 0 {
        lemma_visited_from_at_least(mask, k + 1, bound);
    }
}

proof fn lemma_visited_at_most(mask: u64, k: nat, bound: nat)
    requires
        k <= bound,
    ensures
        visited_subsets(mask, k, bound) <= bound,
    decreases bound - k,
{
    if k < bound {
        lemma_visited_at_most(mask, k + 1, bound);
    }
}

/// Tries a candidate magic board: the table of attacks for every subset of the relevant squares
/// at its magic index, or nothing when two subsets with different attacks share an index.
pub fn create_possible_moves_vec(
    magic_bitboard: &MagicBitboard,
    own_position: usize,
    moves_by_field: &HashMap<usize, MoveInEveryDirection>,
    is_rook: bool,
) -> (table: Option<Vec<Bitboard>>)
    requires
        1 <= magic_bitboard.index < 64,
        table_size(*magic_bitboard) * 8 <= isize::MAX,
        own_position < 64,
        moves_by_field@.contains_key(own_position),
        moves_by_field@[own_position].is_rays_of(own_position as int),
    ensures
        match table {
            Some(t) => spec_possible_moves_table(own_position as int, *magic_bitboard, is_rook) matches Some(s)
                && t@.len() == s.len() && forall|j: int| 0 <= j < t@.len() ==> (#[trigger] t@[j])@ == s[j],
            None => spec_possible_moves_table(own_position as int, *magic_bitboard, is_rook) is None,
        },
{
    let ghost mask = magic_bitboard.relevant_fields.board;
    let ghost m = moves_by_field@[own_position];
    proof {
        law_magic_index_in_table(0, *magic_bitboard);
        lemma_rays_in_board(m, own_position as int);
    }
    let index_bits: u8 = 64 - magic_bitboard.index;
    let size: u64 = 1u64 << index_bits;
    let ghost n = table_size(*magic_bitboard);
    assert(size == n);
    assert(1 <= size) by {
        assert((1u64 << index_bits) >= 1) by (bit_vector)
            requires
                1 <= index_bits < 64,
        ;
    }
    let empty = Bitboard::new();
    let mut table: Vec<Bitboard> = vec![empty; size as usize];
    assert forall|j: int| 0 <= j < table@.len() implies (#[trigger] table@[j])@ == checked_table(own_position as int, *magic_bitboard, is_rook, 0)->0[j] by {
        lemma_bits_zero(table@[j].board);
    }
    let mut blockers = Bitboard::new();
    let mut count: usize = 0;
    let mut done = false;
    while !done
        invariant
            1 <= magic_bitboard.index < 64,
            mask == magic_bitboard.relevant_fields.board,
            n == table_size(*magic_bitboard),
            size == n,
            1 <= size,
            size * 8 <= isize::MAX,
            table@.len() == n,
            count <= n,
            blockers.board == subset_at(mask, count as nat),
            moves_by_field@.contains_key(own_position),
            m == moves_by_field@[own_position],
            m.is_rays_of(own_position as int),
            own_position < 64,
            rook_rays_in_board(m),
            bishop_rays_in_board(m),
            checked_table(own_position as int, *magic_bitboard, is_rook, count as nat) is Some,
            forall|j: int| 0 <= j < n ==> (#[trigger] table@[j])@ == checked_table(own_position as int, *magic_bitboard, is_rook, count as nat)->0[j],
            forall|j: nat| 1 <= j <= count && !(done && j == count) ==> subset_at(mask, j) != 0,
            done ==> count >= 1 && (count == n || subset_at(mask, count as nat) == 0),
        decreases n - count, if done { 0int } else { 1int },
    {
        if count as u64 == size {
            done = true;
        } else {
            let moves = get_valid_moves_for_position_with_given_blockers(blockers, own_position, moves_by_field, is_rook);
            let ghost b = blockers.board;
            assert(slider_attacks_on(m, b, is_rook) == slider_attacks(own_position as int, b, is_rook));
            let idx = get_magic_index(blockers, magic_bitboard);
            let ghost before = checked_table(own_position as int, *magic_bitboard, is_rook, count as nat)->0;
            proof {
                law_magic_index_in_table(b, *magic_bitboard);
                lemma_checked_table_len(own_position as int, *magic_bitboard, is_rook, count as nat);
                assert(idx as int == spec_magic_index(b, *magic_bitboard) as int);
            }
            let entry = table[idx];
            proof {
                lemma_bits_zero(entry.board);
            }
            if entry.board == 0 {
                table.set(idx, moves);
            } else if entry.board != moves.board {
                proof {
                    if entry@ == moves@ {
                        lemma_bits_eq(entry.board, moves.board);
                    }
                    lemma_visited_at_least(mask, 1, n, (count + 1) as nat);
                    lemma_visited_at_most(mask, 1, n);
                    lemma_checked_table_stays_none(
                        own_position as int,
                        *magic_bitboard,
                        is_rook,
                        (count + 1) as nat,
                        visited_subsets(mask, 1, n),
                    );
                }
                return None;
            }
            count = count + 1;
            blockers.board = blockers.board.wrapping_sub(magic_bitboard.relevant_fields.board) & magic_bitboard.relevant_fields.board;
            if blockers.board == 0 {
                done = true;
            }
        }
    }
    proof {
        lemma_visited(mask, 1, count as nat, n);
        lemma_checked_table_len(own_position as int, *magic_bitboard, is_rook, count as nat);
    }
    Some(table)
}

proof fn lemma_ray_attacks_first(r: Seq<usize>, occupied: u64)
    requires
        r.len() >= 1,
    ensures
        ray_attacks(r, occupied).contains(r[0] as int),
{
    lemma_reach_bounds(r, occupied, 0);
    if !bit(occupied, r[0] as int) {
        lemma_reach_bounds(r, occupied, 1);
    }
    assert(0 <= 0 < reach_from(r, occupied, 0) && r[0] as int == r[0] as int);
}

/// A rook or a bishop on the board always attacks some square.
proof fn lemma_slider_attacks_nonempty(position: int, occupied: u64, is_rook: bool)
    requires
        0 <= position < 64,
    ensures
        slider_attacks(position, occupied, is_rook) != Set::<int>::empty(),
{
    let f = file_of(position);
    let r = rank_of(position);
    let s = position;
    if is_rook {
        if f >= 1 {
            lemma_ray_attacks_first(ray(s, -1, f), occupied);
            assert(rook_attacks(s, occupied).contains(ray(s, -1, f)[0] as int));
        } else {
            lemma_ray_attacks_first(ray(s, 1, 7 - f), occupied);
            assert(rook_attacks(s, occupied).contains(ray(s, 1, 7 - f)[0] as int));
        }
    } else {
        if f >= 4 && r >= 4 {
            lemma_ray_attacks_first(ray(s, -9, min_int(f, r)), occupied);
            assert(bishop_attacks(s, occupied).contains(ray(s, -9, min_int(f, r))[0] as int));
        } else if f >= 4 {
            lemma_ray_attacks_first(ray(s, 7, min_int(f, 7 - r)), occupied);
            assert(bishop_attacks(s, occupied).contains(ray(s, 7, min_int(f, 7 - r))[0] as int));
        } else if r >= 4 {
            lemma_ray_attacks_first(ray(s, -7, min_int(7 - f, r)), occupied);
            assert(bishop_attacks(s, occupied).contains(ray(s, -7, min_int(7 - f, r))[0] as int));
        } else {
            lemma_ray_attacks_first(ray(s, 9, min_int(7 - f, 7 - r)), occupied);
            assert(bishop_attacks(s, occupied).contains(ray(s, 9, min_int(7 - f, 7 - r))[0] as int));
        }
    }
}

/// A candidate magic board that passes the check gives back, for every subset it visited, the
/// attacks of that subset at the subset's magic index.
pub proof fn law_passing_magic_gives_the_attacks(position: int, magic_bitboard: MagicBitboard, is_rook: bool, n: nat, k: nat)
    requires
        0 <= position < 64,
        48 <= magic_bitboard.index < 64,
        checked_table(position, magic_bitboard, is_rook, n) is Some,
        k < n,
    ensures
        checked_table(position, magic_bitboard, is_rook, n)->0[
            spec_magic_index(subset_at(magic_bitboard.relevant_fields.board, k), magic_bitboard) as int
        ] == slider_attacks(position, subset_at(magic_bitboard.relevant_fields.board, k), is_rook),
    decreases n,
{
    let mask = magic_bitboard.relevant_fields.board;
    let t = checked_table(position, magic_bitboard, is_rook, (n - 1) as nat)->0;
    let b = subset_at(mask, (n - 1) as nat);
    let idx = spec_magic_index(b, magic_bitboard) as int;
    let bk = subset_at(mask, k);
    let idx_k = spec_magic_index(bk, magic_bitboard) as int;
    lemma_checked_table_len(position, magic_bitboard, is_rook, (n - 1) as nat);
    law_magic_index_in_table(b, magic_bitboard);
    law_magic_index_in_table(bk, magic_bitboard);
    if k < n - 1 {
        law_passing_magic_gives_the_attacks(position, magic_bitboard, is_rook, (n - 1) as nat, k);
        lemma_slider_attacks_nonempty(position, bk, is_rook);
    }
}

/// A candidate magic board whose index leaves one bit of the table per relevant square, and
/// that passes the check, gives for any occupied squares, at their magic index, the attacks of
/// the slider with the occupied relevant squares as blockers.
pub proof fn law_passing_magic_gives_the_attacks_for_every_occupancy(
    position: int,
    magic_bitboard: MagicBitboard,
    is_rook: bool,
    occupied: u64,
)
    requires
        0 <= position < 64,
        48 <= magic_bitboard.index < 64,
        magic_bitboard.index + fields_of(magic_bitboard.relevant_fields.board).len() == 64,
        spec_possible_moves_table(position, magic_bitboard, is_rook) is Some,
    ensures
        spec_possible_moves_table(position, magic_bitboard, is_rook)->0[spec_magic_index(occupied, magic_bitboard) as int]
            == slider_attacks(position, occupied & magic_bitboard.relevant_fields.board, is_rook),
{
    let mask = magic_bitboard.relevant_fields.board;
    let s = occupied & mask;
    assert(s & !mask == 0 && s & mask == s) by (bit_vector)
        requires
            s == occupied & mask,
    ;
    assert(within(s, mask));
    law_walk_fills_the_table(magic_bitboard);
    let n = table_size(magic_bitboard);
    let k = choose|k: nat| k < n && #[trigger] subset_at(mask, k) == s;
    law_passing_magic_gives_the_attacks(position, magic_bitboard, is_rook, n, k);
    assert(spec_magic_index(occupied, magic_bitboard) == spec_magic_index(s, magic_bitboard));
}

proof fn lemma_reach_masked(r: Seq<usize>, occupied: u64, mask: u64, k: int)
    requires
        0 <= k <= r.len(),
        forall|j: int| 0 <= j < r.len() - 1 ==> bits(mask).contains(#[trigger] r[j] as int),
    ensures
        reach_from(r, occupied & mask, k) == reach_from(r, occupied, k),
    decreases r.len() - k,
{
    if k < r.len() {
        lemma_reach_masked(r, occupied, mask, k + 1);
        if k < r.len() - 1 {
            lemma_bits_and(occupied, mask);
            let t = r[k] as int;
            assert(bits(mask).contains(t));
            assert(bits(occupied & mask).contains(t) == bits(occupied).contains(t));
        }
    }
}

/// Along a ray whose squares but the last are all in `mask`, only the occupied squares in
/// `mask` decide how far a slider reaches.
proof fn lemma_ray_masked(s: int, step: int, len: int, occupied: u64, mask: u64)
    requires
        forall|k: int| 1 <= k < len ==> bits(mask).contains(#[trigger] step_square(s, step, k)),
    ensures
        ray_attacks(ray(s, step, len), occupied & mask) == ray_attacks(ray(s, step, len), occupied),
{
    let r = ray(s, step, len);
    assert forall|j: int| 0 <= j < r.len() - 1 implies bits(mask).contains(#[trigger] r[j] as int) by {
        assert(bits(mask).contains(step_square(s, step, j + 1)));
    }
    lemma_reach_masked(r, occupied, mask, 0);
}

/// The attacks of a rook or a bishop depend only on which of its relevant squares are occupied:
/// the last square of each ray is reached whether it is occupied or not.
pub proof fn law_relevant_squares_decide_the_attacks(position: int, occupied: u64, mask: u64, is_rook: bool)
    requires
        0 <= position < 64,
        bits(mask) == relevant_squares(position, is_rook),
    ensures
        slider_attacks(position, occupied & mask, is_rook) == slider_attacks(position, occupied, is_rook),
{
    let s = position;
    let f = file_of(s);
    let r = rank_of(s);
    if is_rook {
        assert forall|k: int| 1 <= k < f implies bits(mask).contains(#[trigger] step_square(s, -1, k)) by {
            assert(step_squares(s, -1, 1, f).contains(step_square(s, -1, k)));
        }
        assert forall|k: int| 1 <= k < 7 - f implies bits(mask).contains(#[trigger] step_square(s, 1, k)) by {
            assert(step_squares(s, 1, 1, 7 - f).contains(step_square(s, 1, k)));
        }
        assert forall|k: int| 1 <= k < 7 - r implies bits(mask).contains(#[trigger] step_square(s, 8, k)) by {
            assert(step_squares(s, 8, 1, 7 - r).contains(step_square(s, 8, k)));
        }
        assert forall|k: int| 1 <= k < r implies bits(mask).contains(#[trigger] step_square(s, -8, k)) by {
            assert(step_squares(s, -8, 1, r).contains(step_square(s, -8, k)));
        }
        lemma_ray_masked(s, -1, f, occupied, mask);
        lemma_ray_masked(s, 1, 7 - f, occupied, mask);
        lemma_ray_masked(s, 8, 7 - r, occupied, mask);
        lemma_ray_masked(s, -8, r, occupied, mask);
    } else {
        assert forall|k: int| 1 <= k < min_int(f, r) implies bits(mask).contains(#[trigger] step_square(s, -9, k)) by {
            assert(step_squares(s, -9, 1, min_int(f, r)).contains(step_square(s, -9, k)));
        }
        assert forall|k: int| 1 <= k < min_int(f, 7 - r) implies bits(mask).contains(#[trigger] step_square(s, 7, k)) by {
            assert(step_squares(s, 7, 1, min_int(f, 7 - r)).contains(step_square(s, 7, k)));
        }
        assert forall|k: int| 1 <= k < min_int(7 - f, 7 - r) implies bits(mask).contains(#[trigger] step_square(s, 9, k)) by {
            assert(step_squares(s, 9, 1, min_int(7 - f, 7 - r)).contains(step_square(s, 9, k)));
        }
        assert forall|k: int| 1 <= k < min_int(7 - f, r) implies bits(mask).contains(#[trigger] step_square(s, -7, k)) by {
            assert(step_squares(s, -7, 1, min_int(7 - f, r)).contains(step_square(s, -7, k)));
        }
        lemma_ray_masked(s, -9, min_int(f, r), occupied, mask);
        lemma_ray_masked(s, 7, min_int(f, 7 - r), occupied, mask);
        lemma_ray_masked(s, 9, min_int(7 - f, 7 - r), occupied, mask);
        lemma_ray_masked(s, -7, min_int(7 - f, r), occupied, mask);
    }
}

/// The magic lookup of a candidate board for a square, whose relevant squares are those of the
/// square and whose index leaves one bit of the table per relevant square, gives, once the
/// candidate passes the check, the true attacks of the slider for any occupation of the board.
pub proof fn law_passing_magic_looks_up_the_attacks(
    position: int,
    magic_bitboard: MagicBitboard,
    is_rook: bool,
    occupied: u64,
)
    requires
        0 <= position < 64,
        48 <= magic_bitboard.index < 64,
        magic_bitboard.index + fields_of(magic_bitboard.relevant_fields.board).len() == 64,
        bits(magic_bitboard.relevant_fields.board) == relevant_squares(position, is_rook),
        spec_possible_moves_table(position, magic_bitboard, is_rook) is Some,
    ensures
        spec_possible_moves_table(position, magic_bitboard, is_rook)->0[spec_magic_index(occupied, magic_bitboard) as int]
            == slider_attacks(position, occupied, is_rook),
{
    law_passing_magic_gives_the_attacks_for_every_occupancy(position, magic_bitboard, is_rook, occupied);
    law_relevant_squares_decide_the_attacks(position, occupied, magic_bitboard.relevant_fields.board, is_rook);
}

/// As long as a candidate passes the check, its table is the table that the walk writes without
/// checking.
proof fn lemma_attack_table_is_checked_table(position: int, magic_bitboard: MagicBitboard, is_rook: bool, n: nat)
    requires
        48 <= magic_bitboard.index < 64,
        checked_table(position, magic_bitboard, is_rook, n) is Some,
    ensures
        attack_table(position, magic_bitboard, is_rook, n) == checked_table(position, magic_bitboard, is_rook, n)->0,
    decreases n,
{
    if n > 0 {
        if checked_table(position, magic_bitboard, is_rook, (n - 1) as nat) is None {
            lemma_checked_table_stays_none(position, magic_bitboard, is_rook, (n - 1) as nat, n);
        }
        lemma_attack_table_is_checked_table(position, magic_bitboard, is_rook, (n - 1) as nat);
        lemma_checked_table_len(position, magic_bitboard, is_rook, (n - 1) as nat);
        let t = checked_table(position, magic_bitboard, is_rook, (n - 1) as nat)->0;
        let b = subset_at(magic_bitboard.relevant_fields.board, (n - 1) as nat);
        let idx = spec_magic_index(b, magic_bitboard) as int;
        let moves = slider_attacks(position, b, is_rook);
        law_magic_index_in_table(b, magic_bitboard);
        if t[idx] != Set::<int>::empty() && t[idx] == moves {
            assert(t.update(idx, moves) =~= t);
        }
    }
}

/// On every square whose predefined magic board passes the check, the attack tables built from
/// the predefined magic boards look up the true attacks of the slider for any occupation of the
/// board.
pub proof fn law_magic_tables_look_up_the_attacks(tables: Seq<Vec<Bitboard>>, is_rook: bool, position: int, occupied: u64)
    requires
        tables_match(tables, is_rook),
        0 <= position < 64,
        spec_possible_moves_table(position, spec_magic_board(position, is_rook), is_rook) is Some,
    ensures
        spec_magic_index(occupied, spec_magic_board(position, is_rook)) < tables[position]@.len(),
        tables[position]@[spec_magic_index(occupied, spec_magic_board(position, is_rook)) as int]@
            == slider_attacks(position, occupied, is_rook),
{
    let mb = spec_magic_board(position, is_rook);
    lemma_magic_board_props(position, is_rook);
    law_magic_index_in_table(occupied, mb);
    law_walk_fills_the_table(mb);
    let n = visited_subsets(mb.relevant_fields.board, 1, table_size(mb));
    lemma_attack_table_is_checked_table(position, mb, is_rook, n);
    law_passing_magic_looks_up_the_attacks(position, mb, is_rook, occupied);
    let idx = spec_magic_index(occupied, mb) as int;
    assert(tables[position]@[idx]@ == spec_moves_table(position, mb, is_rook)[idx]);
}

} // verus!

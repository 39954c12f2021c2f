use vstd::prelude::*;
use crate::board::board::{Chessboard, move_is_safe, spec_move_figure};
use crate::engine::engine::PossibleMove;
use crate::engine::moves::{best_move_of, can_generate_moves, get_valid_moves_in_position, moves_can_be_generated, spec_valid_moves};
use std::collections::HashMap;

verus! {

/// The board after playing `m`.
#[verifier::opaque]
pub open spec fn after_move(board: Chessboard, m: PossibleMove) -> Chessboard {
    spec_move_figure(board, m.from as int, m.to as int, m.promoted_to)
}

/// The moves of the position, all of them, with the move that `best` holds for it put first.
#[verifier::opaque]
pub open spec fn all_valid_moves(board: Chessboard, best: Map<u64, PossibleMove>) -> Seq<PossibleMove> {
    spec_valid_moves(board, true, best_move_of(best, board.zobrist_key)).0
}

/// The number of move sequences from `board` that reach `max_depth`, counting from `depth`: the
/// leaves of the tree of generated moves, where a move at the last depth counts one.
pub open spec fn spec_count_moves(board: Chessboard, best: Map<u64, PossibleMove>, max_depth: int, depth: int) -> nat
    decreases max_depth - depth, 1int, 0int,
{
    count_over(board, best, all_valid_moves(board, best), max_depth, depth)
}

/// The leaves below the moves of `moves` played on `board` at `depth`.
pub open spec fn count_over(board: Chessboard, best: Map<u64, PossibleMove>, moves: Seq<PossibleMove>, max_depth: int, depth: int) -> nat
    decreases max_depth - depth, 0int, moves.len(),
{
    if moves.len() == 0 {
        0
    } else {
        count_over(board, best, moves.drop_last(), max_depth, depth) + if depth < max_depth {
            spec_count_moves(after_move(board, moves.last()), best, max_depth, depth + 1)
        } else {
            1
        }
    }
}

/// Every position reached while counting to `max_depth` from `depth` allows move generation,
/// and every generated move in it can be played.
pub open spec fn counting_is_safe(board: Chessboard, best: Map<u64, PossibleMove>, max_depth: int, depth: int) -> bool
    decreases max_depth - depth,
{
    &&& moves_can_be_generated(board)
    &&& forall|i: int| 0 <= i < all_valid_moves(board, best).len() ==> {
        let m = #[trigger] all_valid_moves(board, best)[i];
        &&& move_is_safe(board, m.from as int, m.to as int, m.promoted_to)
        &&& (depth < max_depth ==> counting_is_safe(after_move(board, m), best, max_depth, depth + 1))
    }
}

/// Counting over a prefix of the moves gives no more than over all of them.
proof fn lemma_count_over_prefix(board: Chessboard, best: Map<u64, PossibleMove>, moves: Seq<PossibleMove>, max_depth: int, depth: int, i: int)
    requires
        0 <= i <= moves.len(),
    ensures
        count_over(board, best, moves.take(i), max_depth, depth) <= count_over(board, best, moves, max_depth, depth),
    decreases moves.len() - i,
{
    if i < moves.len() {
        lemma_count_over_prefix(board, best, moves, max_depth, depth, i + 1);
        assert(moves.take(i + 1).drop_last() =~= moves.take(i));
    } else {
        assert(moves.take(i) =~= moves);
    }
}

/// Counts the move sequences from `board` to `max_depth` (a check of the move generation); in
/// each position the move that `best_moves` holds as best for it is put first, and counted even
/// where the generation does not list it.
pub fn count_moves(board: &Chessboard, max_depth: u8, best_moves: &HashMap<u64, PossibleMove>) -> (r: u64)
    requires
        counting_is_safe(*board, best_moves@, max_depth as int, 1),
        spec_count_moves(*board, best_moves@, max_depth as int, 1) <= u64::MAX,
    ensures
        r == spec_count_moves(*board, best_moves@, max_depth as int, 1),
{
    make_moves_and_count_moves(board, max_depth, 1, best_moves)
}

fn make_moves_and_count_moves(board: &Chessboard, max_depth: u8, depth: u8, best_moves: &HashMap<u64, PossibleMove>) -> (r: u64)
    requires
        depth >= 1,
        counting_is_safe(*board, best_moves@, max_depth as int, depth as int),
        spec_count_moves(*board, best_moves@, max_depth as int, depth as int) <= u64::MAX,
    ensures
        r == spec_count_moves(*board, best_moves@, max_depth as int, depth as int),
    decreases max_depth - depth,
{
    let mut calculated_positions: u64 = 0;
    let (valid_moves, _) = get_valid_moves_in_position(board, true, best_moves);
    let ghost moves = valid_moves@;
    assert(moves == all_valid_moves(*board, best_moves@)) by {
        reveal(all_valid_moves);
    }
    if valid_moves.len() == 0 {
        return 0;
    }
    let mut i: usize = 0;
    while i < valid_moves.len()
        invariant
            i <= valid_moves.len(),
            depth >= 1,
            valid_moves@ == moves,
            moves == all_valid_moves(*board, best_moves@),
            counting_is_safe(*board, best_moves@, max_depth as int, depth as int),
            count_over(*board, best_moves@, moves, max_depth as int, depth as int) <= u64::MAX,
            calculated_positions == count_over(*board, best_moves@, moves.take(i as int), max_depth as int, depth as int),
        decreases valid_moves.len() - i,
    {
        let single = valid_moves[i];
        proof {
            assert(moves[i as int] == single);
            lemma_count_over_prefix(*board, best_moves@, moves, max_depth as int, depth as int, i + 1);
            assert(moves.take(i + 1).drop_last() =~= moves.take(i as int));
            assert(moves.take(i + 1).last() == single);
        }
        let mut new_board = *board;
        new_board.move_figure(single.from, single.to, single.promoted_to);
        assert(new_board == after_move(*board, single)) by {
            reveal(after_move);
        }
        if depth < max_depth {
            let moves_after = make_moves_and_count_moves(&new_board, max_depth, depth + 1, best_moves);
            calculated_positions = calculated_positions + moves_after;
        } else {
            calculated_positions = calculated_positions + 1;
        }
        i = i + 1;
    }
    assert(moves.take(valid_moves.len() as int) =~= moves);
    calculated_positions
}

/// Counting to a depth of one (or less) counts the generated moves of the position.
pub proof fn law_count_one_level_is_number_of_moves(board: Chessboard, best: Map<u64, PossibleMove>, max_depth: int)
    requires
        max_depth <= 1,
    ensures
        spec_count_moves(board, best, max_depth, 1) == all_valid_moves(board, best).len(),
{
    lemma_count_last_level_up_to(board, best, all_valid_moves(board, best), max_depth, 1);
}

proof fn lemma_count_last_level_up_to(board: Chessboard, best: Map<u64, PossibleMove>, moves: Seq<PossibleMove>, max_depth: int, depth: int)
    requires
        max_depth <= depth,
    ensures
        count_over(board, best, moves, max_depth, depth) == moves.len(),
    decreases moves.len(),
{
    if moves.len() > 0 {
        lemma_count_last_level_up_to(board, best, moves.drop_last(), max_depth, depth);
    }
}

/// Counts the move sequences from `board` to `max_depth`, as `count_moves` does, when every
/// position on the way allows it and the count fits in 64 bits; nothing otherwise.
pub fn try_count_moves(board: &Chessboard, max_depth: u8, best_moves: &HashMap<u64, PossibleMove>) -> (r: Option<u64>)
    ensures
        r is Some <==> (counting_is_safe(*board, best_moves@, max_depth as int, 1) && spec_count_moves(*board, best_moves@, max_depth as int, 1) <= u64::MAX),
        r matches Some(n) ==> n == spec_count_moves(*board, best_moves@, max_depth as int, 1),
{
    checked_count(board, max_depth, 1, best_moves)
}

fn checked_count(board: &Chessboard, max_depth: u8, depth: u8, best_moves: &HashMap<u64, PossibleMove>) -> (r: Option<u64>)
    requires
        depth >= 1,
    ensures
        r is Some <==> (counting_is_safe(*board, best_moves@, max_depth as int, depth as int) && spec_count_moves(
            *board, best_moves@,
            max_depth as int,
            depth as int,
        ) <= u64::MAX),
        r matches Some(n) ==> n == spec_count_moves(*board, best_moves@, max_depth as int, depth as int),
    decreases max_depth - depth,
{
    if !can_generate_moves(board) {
        return None;
    }
    let (valid_moves, _) = get_valid_moves_in_position(board, true, best_moves);
    let ghost moves = valid_moves@;
    assert(moves == all_valid_moves(*board, best_moves@)) by {
        reveal(all_valid_moves);
    }
    let ghost best = best_moves@;
    let mut total: u64 = 0;
    let mut i: usize = 0;
    while i < valid_moves.len()
        invariant
            best == best_moves@,
            i <= valid_moves.len(),
            depth >= 1,
            valid_moves@ == moves,
            moves == all_valid_moves(*board, best),
            moves_can_be_generated(*board),
            total == count_over(*board, best, moves.take(i as int), max_depth as int, depth as int),
            forall|k: int| 0 <= k < i ==> {
                let m = #[trigger] moves[k];
                &&& move_is_safe(*board, m.from as int, m.to as int, m.promoted_to)
                &&& (depth < max_depth ==> counting_is_safe(after_move(*board, m), best, max_depth as int, depth + 1))
            },
        decreases valid_moves.len() - i,
    {
        let single = valid_moves[i];
        proof {
            lemma_count_over_prefix(*board, best, moves, max_depth as int, depth as int, i + 1);
            assert(moves.take(i + 1).drop_last() =~= moves.take(i as int));
            assert(moves.take(i + 1).last() == single);
            assert(moves[i as int] == single);
        }
        if !board.is_move_safe(single.from, single.to, single.promoted_to) {
            return None;
        }
        let mut new_board = *board;
        new_board.move_figure(single.from, single.to, single.promoted_to);
        assert(new_board == after_move(*board, single)) by {
            reveal(after_move);
        }
        let below = if depth < max_depth {
            match checked_count(&new_board, max_depth, depth + 1, best_moves) {
                None => {
                    return None;
                },
                Some(n) => n,
            }
        } else {
            1
        };
        match total.checked_add(below) {
            None => {
                return None;
            },
            Some(t) => {
                total = t;
            },
        }
        i = i + 1;
    }
    assert(moves.take(valid_moves.len() as int) =~= moves);
    Some(total)
}

} // verus!

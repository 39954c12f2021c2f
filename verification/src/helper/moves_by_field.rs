use vstd::prelude::*;
use crate::board::bitboard::{Bitboard, bits};
use crate::figures::color::Color;
use std::collections::HashMap;

verus! {

/// File of a square, 0 = a .. 7 = h.
pub open spec fn file_of(s: int) -> int {
    s % 8
}

/// Rank of a square, 0 = first rank .. 7 = eighth rank.
pub open spec fn rank_of(s: int) -> int {
    s / 8
}

/// The distance between `a` and `b`.
pub open spec fn abs_diff(a: int, b: int) -> int {
    if a >= b { a - b } else { b - a }
}

/// Squares a king on `s` reaches in one step.
pub open spec fn king_targets(s: int) -> Set<int> {
    Set::new(|t: int| 0 <= t < 64 && t != s
        && abs_diff(file_of(t), file_of(s)) <= 1 && abs_diff(rank_of(t), rank_of(s)) <= 1)
}

/// Squares a knight on `s` reaches in one jump.
pub open spec fn knight_targets(s: int) -> Set<int> {
    Set::new(|t: int| 0 <= t < 64 && (
        (abs_diff(file_of(t), file_of(s)) == 1 && abs_diff(rank_of(t), rank_of(s)) == 2)
        || (abs_diff(file_of(t), file_of(s)) == 2 && abs_diff(rank_of(t), rank_of(s)) == 1)))
}

/// The squares a king on `position` reaches.
#[verifier::rlimit(60)]
pub fn king_moves_for_square(position: usize) -> (moves: Bitboard)
    requires
        position < 64,
    ensures
        moves@ == king_targets(position as int),
{
    let column = position / 8;
    let row = position % 8;
    let mut moves = Bitboard::new();
    if column >= 1 {
        moves.set_field(position - 8);
        if row >= 1 {
            moves.set_field(position - 9);
        }
        if row <= 6 {
            moves.set_field(position - 7);
        }
    }
    if column <= 6 {
        moves.set_field(position + 8);
        if row >= 1 {
            moves.set_field(position + 7);
        }
        if row <= 6 {
            moves.set_field(position + 9);
        }
    }
    if row >= 1 {
        moves.set_field(position - 1);
    }
    if row <= 6 {
        moves.set_field(position + 1);
    }
    assert(moves@ =~= king_targets(position as int));
    moves
}

/// The squares a knight on `position` reaches.
#[verifier::rlimit(60)]
pub fn knight_moves_for_square(position: usize) -> (moves: Bitboard)
    requires
        position < 64,
    ensures
        moves@ == knight_targets(position as int),
{
    let column = position / 8;
    let row = position % 8;
    let mut moves = Bitboard::new();
    if row >= 2 {
        if column >= 1 {
            moves.set_field(position - 10);
        }
        if column <= 6 {
            moves.set_field(position + 6);
        }
    }
    if row <= 5 {
        if column >= 1 {
            moves.set_field(position - 6);
        }
        if column <= 6 {
            moves.set_field(position + 10);
        }
    }
    if column >= 2 {
        if row >= 1 {
            moves.set_field(position - 17);
        }
        if row <= 6 {
            moves.set_field(position - 15);
        }
    }
    if column <= 5 {
        if row >= 1 {
            moves.set_field(position + 15);
        }
        if row <= 6 {
            moves.set_field(position + 17);
        }
    }
    assert(moves@ =~= knight_targets(position as int));
    moves
}


/// Squares a pawn of `color` on `s` attacks (diagonally forward).
pub open spec fn pawn_threat_targets(color: Color, s: int) -> Set<int> {
    Set::new(|t: int| 0 <= t < 64 && abs_diff(file_of(t), file_of(s)) == 1
        && rank_of(t) == rank_of(s) + (if color == Color::White { 1int } else { -1int }))
}

/// The squares a pawn of `color` on `position` attacks.
pub fn pawn_takes_for_square(color: Color, position: usize) -> (moves: Bitboard)
    requires
        position < 64,
    ensures
        moves@ == pawn_threat_targets(color, position as int),
{
    let column = position / 8;
    let row = position % 8;
    let mut moves = Bitboard::new();
    match color {
        Color::White => {
            if row >= 1 && column <= 6 {
                moves.set_field(position + 7);
            }
            if row <= 6 && column <= 6 {
                moves.set_field(position + 9);
            }
        },
        Color::Black => {
            if row >= 1 && column >= 1 {
                moves.set_field(position - 9);
            }
            if row <= 6 && column >= 1 {
                moves.set_field(position - 7);
            }
        },
    }
    assert(moves@ =~= pawn_threat_targets(color, position as int));
    moves
}

/// King steps for every square.
pub fn get_king_moves_for_field() -> (moves: [Bitboard; 64])
    ensures
        forall|i: int| 0 <= i < 64 ==> (#[trigger] moves[i])@ == king_targets(i),
{
    let mut moves: [Bitboard; 64] = [Bitboard { board: 0 }; 64];
    let mut position: usize = 0;
    while position < 64
        invariant
            position <= 64,
            forall|i: int| 0 <= i < position ==> (#[trigger] moves[i])@ == king_targets(i),
        decreases 64 - position,
    {
        moves[position] = king_moves_for_square(position);
        position = position + 1;
    }
    moves
}

/// Knight jumps for every square.
pub fn get_knight_moves_for_field() -> (moves: [Bitboard; 64])
    ensures
        forall|i: int| 0 <= i < 64 ==> (#[trigger] moves[i])@ == knight_targets(i),
{
    let mut moves: [Bitboard; 64] = [Bitboard { board: 0 }; 64];
    let mut position: usize = 0;
    while position < 64
        invariant
            position <= 64,
            forall|i: int| 0 <= i < position ==> (#[trigger] moves[i])@ == knight_targets(i),
        decreases 64 - position,
    {
        moves[position] = knight_moves_for_square(position);
        position = position + 1;
    }
    moves
}

/// Pawn attacks for every square, white's first and black's second.
pub fn get_pawn_takes_for_field() -> (moves: [[Bitboard; 64]; 2])
    ensures
        forall|i: int| 0 <= i < 64 ==> (#[trigger] moves[0][i])@ == pawn_threat_targets(Color::White, i),
        forall|i: int| 0 <= i < 64 ==> (#[trigger] moves[1][i])@ == pawn_threat_targets(Color::Black, i),
{
    let mut white: [Bitboard; 64] = [Bitboard { board: 0 }; 64];
    let mut black: [Bitboard; 64] = [Bitboard { board: 0 }; 64];
    let mut position: usize = 0;
    while position < 64
        invariant
            position <= 64,
            forall|i: int| 0 <= i < position ==> (#[trigger] white[i])@ == pawn_threat_targets(Color::White, i),
            forall|i: int| 0 <= i < position ==> (#[trigger] black[i])@ == pawn_threat_targets(Color::Black, i),
        decreases 64 - position,
    {
        white[position] = pawn_takes_for_square(Color::White, position);
        black[position] = pawn_takes_for_square(Color::Black, position);
        position = position + 1;
    }
    [white, black]
}

/// The first and the last rank, where pawns promote.
pub open spec fn promotion_squares() -> Set<int> {
    Set::new(|t: int| (0 <= t < 8) || (56 <= t < 64))
}

/// The squares of the first and the eighth rank, where pawns promote.
pub fn get_pawn_promotion_moves() -> (board: Bitboard)
    ensures
        board@ == promotion_squares(),
{
    let mut board = Bitboard::new();
    let mut val: usize = 0;
    while val <= 7
        invariant
            val <= 8,
            board@ == Set::new(|t: int| 0 <= t < val),
        decreases 8 - val,
    {
        board.set_field(val);
        assert(board@ =~= Set::new(|t: int| 0 <= t < val + 1));
        val = val + 1;
    }
    let mut val: usize = 56;
    while val <= 63
        invariant
            56 <= val <= 64,
            board@ == Set::new(|t: int| (0 <= t < 8) || (56 <= t < val)),
        decreases 64 - val,
    {
        board.set_field(val);
        assert(board@ =~= Set::new(|t: int| (0 <= t < 8) || (56 <= t < val + 1)));
        val = val + 1;
    }
    assert(board@ =~= promotion_squares());
    board
}

/// The squares of file `f`.
pub open spec fn file_squares(f: int) -> Set<int> {
    Set::new(|t: int| 0 <= t < 64 && file_of(t) == f)
}

/// One board per file holding all its squares (used to find doubled pawns).
pub fn get_douplicate_pawn_boards() -> (fields: [Bitboard; 8])
    ensures
        forall|f: int| 0 <= f < 8 ==> (#[trigger] fields[f])@ == file_squares(f),
{
    let mut fields: [Bitboard; 8] = [Bitboard { board: 0 }; 8];
    let mut row: usize = 0;
    while row < 8
        invariant
            row <= 8,
            forall|f: int| 0 <= f < row ==> (#[trigger] fields[f])@ == file_squares(f),
            forall|f: int| row <= f < 8 ==> (#[trigger] fields[f]).board == 0,
        decreases 8 - row,
    {
        let mut column: usize = 0;
        let mut b = Bitboard::new();
        while column < 8
            invariant
                row < 8,
                column <= 8,
                b@ == Set::new(|t: int| 0 <= t < 64 && file_of(t) == row && rank_of(t) < column),
            decreases 8 - column,
        {
            let position: usize = column * 8 + row;
            b.set_field(position);
            assert(b@ =~= Set::new(|t: int| 0 <= t < 64 && file_of(t) == row && rank_of(t) < column + 1));
            column = column + 1;
        }
        assert(b@ =~= file_squares(row as int));
        fields[row] = b;
        row = row + 1;
    }
    fields
}


/// The squares of file `f` and of the files beside it: where pawns of the other side can stop a
/// pawn on file `f` from passing.
pub open spec fn passed_pawn_squares(f: int) -> Set<int> {
    Set::new(|t: int| 0 <= t < 64 && abs_diff(file_of(t), f) <= 1)
}

/// One board per file holding the squares of that file and its neighbours.
pub fn get_passed_pawn_rows() -> (rows: [Bitboard; 8])
    ensures
        forall|f: int| 0 <= f < 8 ==> (#[trigger] rows[f])@ == passed_pawn_squares(f),
{
    let files = get_douplicate_pawn_boards();
    let mut rows: [Bitboard; 8] = [Bitboard { board: 0 }; 8];
    let mut row: usize = 0;
    while row < 8
        invariant
            row <= 8,
            forall|f: int| 0 <= f < 8 ==> (#[trigger] files[f])@ == file_squares(f),
            forall|f: int| 0 <= f < row ==> (#[trigger] rows[f])@ == passed_pawn_squares(f),
        decreases 8 - row,
    {
        let mut board = files[row].board;
        if row >= 1 {
            proof {
                crate::board::bitboard::lemma_bits_or(board, files[row - 1].board);
            }
            board = board | files[row - 1].board;
        }
        if row <= 6 {
            proof {
                crate::board::bitboard::lemma_bits_or(board, files[row + 1].board);
            }
            board = board | files[row + 1].board;
        }
        assert(bits(board) =~= passed_pawn_squares(row as int));
        rows[row] = Bitboard { board };
        row = row + 1;
    }
    rows
}

/// The smaller of `a` and `b`.
pub open spec fn min_int(a: int, b: int) -> int {
    if a <= b { a } else { b }
}

/// The `len` squares reached from `s` by repeating `step`, nearest first.
pub open spec fn ray(s: int, step: int, len: int) -> Seq<usize> {
    Seq::new(if len > 0 { len as nat } else { 0 }, |k: int| (s + step * (k + 1)) as usize)
}

/// All squares reachable from a square in each of the eight directions, nearest first.
/// "Left" is toward the a-file and "forward" toward the eighth rank.
#[derive(Debug, Clone, Default)]
pub struct MoveInEveryDirection {
    pub left: Vec<usize>,
    pub right: Vec<usize>,
    pub forward: Vec<usize>,
    pub back: Vec<usize>,
    pub left_forward: Vec<usize>,
    pub left_back: Vec<usize>,
    pub right_forward: Vec<usize>,
    pub right_back: Vec<usize>,
}

/// Every square of the ray is on the board.
pub open spec fn ray_in_board(ray: Seq<usize>) -> bool {
    forall|k: int| 0 <= k < ray.len() ==> ray[k] < 64
}

/// The straight rays of `m` stay on the board.
pub open spec fn rook_rays_in_board(m: MoveInEveryDirection) -> bool {
    ray_in_board(m.left@) && ray_in_board(m.right@) && ray_in_board(m.forward@) && ray_in_board(m.back@)
}

/// The diagonal rays of `m` stay on the board.
pub open spec fn bishop_rays_in_board(m: MoveInEveryDirection) -> bool {
    ray_in_board(m.left_back@) && ray_in_board(m.left_forward@) && ray_in_board(m.right_forward@)
        && ray_in_board(m.right_back@)
}

/// The rays of a square stay on the board.
pub proof fn lemma_rays_in_board(m: MoveInEveryDirection, s: int)
    requires
        0 <= s < 64,
        m.is_rays_of(s),
    ensures
        rook_rays_in_board(m),
        bishop_rays_in_board(m),
{
}

impl MoveInEveryDirection {
    /// The rays from square `s` to the edge of the board.
    pub open spec fn is_rays_of(&self, s: int) -> bool {
        let f = file_of(s);
        let r = rank_of(s);
        &&& self.left@ == ray(s, -1, f)
        &&& self.right@ == ray(s, 1, 7 - f)
        &&& self.forward@ == ray(s, 8, 7 - r)
        &&& self.back@ == ray(s, -8, r)
        &&& self.left_forward@ == ray(s, 7, min_int(f, 7 - r))
        &&& self.left_back@ == ray(s, -9, min_int(f, r))
        &&& self.right_forward@ == ray(s, 9, min_int(7 - f, 7 - r))
        &&& self.right_back@ == ray(s, -7, min_int(7 - f, r))
    }
}

fn push_ray(s: usize, step_up: bool, step: usize, len: usize) -> (v: Vec<usize>)
    requires
        s < 64,
        step_up ==> s + step * len < 64,
        !step_up ==> s >= step * len,
        step <= 9,
        len <= 7,
    ensures
        v@ == ray(s as int, if step_up { step as int } else { -step }, len as int),
{
    let mut v: Vec<usize> = Vec::new();
    let mut val: usize = 1;
    while val <= len
        invariant
            1 <= val <= len + 1,
            len <= 7,
            step <= 9,
            s < 64,
            step_up ==> s + step * len < 64,
            !step_up ==> s >= step * len,
            v@ == ray(s as int, if step_up { step as int } else { -step }, (val - 1) as int),
        decreases len + 1 - val,
    {
        proof {
            assert(step * val <= step * len) by (nonlinear_arith)
                requires
                    val <= len,
            ;
        }
        if step_up {
            v.push(s + step * val);
        } else {
            v.push(s - step * val);
        }
        proof {
            let stp: int = if step_up { step as int } else { -step };
            assert(stp * ((val - 1) + 1) == if step_up { (step * val) as int } else { -(step * val) }) by (nonlinear_arith)
                requires
                    stp == if step_up { step as int } else { -step },
            ;
            assert(v@ =~= ray(s as int, stp, val as int));
        }
        val = val + 1;
    }
    v
}

/// The rays from one square in every direction.
pub fn get_moves_for_field(index: usize) -> (moves: MoveInEveryDirection)
    requires
        index < 64,
    ensures
        moves.is_rays_of(index as int),
        rook_rays_in_board(moves),
        bishop_rays_in_board(moves),
{
    let column = index / 8;
    let row = index % 8;
    let left_fw = if row <= 7 - column { row } else { 7 - column };
    let left_bw = if row <= column { row } else { column };
    let right_fw = if 7 - row <= 7 - column { 7 - row } else { 7 - column };
    let right_bw = if 7 - row <= column { 7 - row } else { column };
    let moves = MoveInEveryDirection {
        left: push_ray(index, false, 1, row),
        right: push_ray(index, true, 1, 7 - row),
        forward: push_ray(index, true, 8, 7 - column),
        back: push_ray(index, false, 8, column),
        left_forward: push_ray(index, true, 7, left_fw),
        left_back: push_ray(index, false, 9, left_bw),
        right_forward: push_ray(index, true, 9, right_fw),
        right_back: push_ray(index, false, 7, right_bw),
    };
    proof {
        lemma_rays_in_board(moves, index as int);
    }
    moves
}

/// The rays of every square, keyed by the square.
pub fn get_moves_for_each_field() -> (values: HashMap<usize, MoveInEveryDirection>)
    ensures
        forall|i: usize| values@.contains_key(i) <==> i < 64,
        forall|i: usize| i < 64 ==> (#[trigger] values@[i]).is_rays_of(i as int),
        forall|i: usize| i < 64 ==> rook_rays_in_board(#[trigger] values@[i]) && bishop_rays_in_board(values@[i]),
{
    broadcast use vstd::std_specs::hash::group_hash_axioms;
    let mut values: HashMap<usize, MoveInEveryDirection> = HashMap::new();
    let mut index: usize = 0;
    while index < 64
        invariant
            index <= 64,
            forall|i: usize| values@.contains_key(i) <==> i < index,
            forall|i: usize| i < index ==> (#[trigger] values@[i]).is_rays_of(i as int),
            forall|i: usize| i < index ==> rook_rays_in_board(#[trigger] values@[i]) && bishop_rays_in_board(values@[i]),
        decreases 64 - index,
    {
        values.insert(index, get_moves_for_field(index));
        index = index + 1;
    }
    values
}


/// The squares `s + step * k` for `lo <= k < hi`.
pub open spec fn step_squares(s: int, step: int, lo: int, hi: int) -> Set<int> {
    Set::new(|t: int| exists|k: int| lo <= k < hi && t == #[trigger] step_square(s, step, k))
}

/// The square `k` steps of `step` from `s`.
pub open spec fn step_square(s: int, step: int, k: int) -> int {
    s + step * k
}

/// A run of steps is a finite set of at most as many squares as steps.
pub proof fn lemma_step_squares_len(s: int, step: int, lo: int, hi: int)
    ensures
        step_squares(s, step, lo, hi).finite(),
        step_squares(s, step, lo, hi).len() <= range_len(lo, hi),
    decreases range_len(lo, hi),
{
    if hi <= lo {
        assert(step_squares(s, step, lo, hi) =~= Set::<int>::empty());
    } else {
        lemma_step_squares_len(s, step, lo, hi - 1);
        lemma_step_squares_extend(s, step, lo, hi - 1);
    }
}

/// At most sixteen squares can block a rook or a bishop on one square.
pub proof fn lemma_blocker_squares_len(column: int, row: int)
    requires
        0 <= column <= 7,
        0 <= row <= 7,
    ensures
        rook_blocker_squares(column, row).finite(),
        rook_blocker_squares(column, row).len() <= 16,
        bishop_blocker_squares(column, row).finite(),
        bishop_blocker_squares(column, row).len() <= 16,
{
    let s = column * 8 + row;
    let a = step_squares(s, -1, 1, row);
    let b = step_squares(s, 1, 1, if row <= 6 { 7 - row } else { 0 });
    let c = step_squares(s, 8, 1, if column <= 6 { 7 - column } else { 0 });
    let d = step_squares(s, -8, 1, column);
    lemma_step_squares_len(s, -1, 1, row);
    lemma_step_squares_len(s, 1, 1, if row <= 6 { 7 - row } else { 0 });
    lemma_step_squares_len(s, 8, 1, if column <= 6 { 7 - column } else { 0 });
    lemma_step_squares_len(s, -8, 1, column);
    vstd::set_lib::lemma_len_union(a, b);
    vstd::set_lib::lemma_len_union(a.union(b), c);
    vstd::set_lib::lemma_len_union(a.union(b).union(c), d);
    let left = row;
    let right = 7 - row;
    let forward = range_len(1, 8 - column);
    let back = column;
    let e = step_squares(s, 7, 1, min_int(left, forward));
    let f = step_squares(s, -9, 1, min_int(left, back));
    let g = step_squares(s, 9, 1, min_int(right, forward));
    let h = step_squares(s, -7, 1, min_int(right, back));
    lemma_step_squares_len(s, 7, 1, min_int(left, forward));
    lemma_step_squares_len(s, -9, 1, min_int(left, back));
    lemma_step_squares_len(s, 9, 1, min_int(right, forward));
    lemma_step_squares_len(s, -7, 1, min_int(right, back));
    vstd::set_lib::lemma_len_union(e, f);
    vstd::set_lib::lemma_len_union(e.union(f), g);
    vstd::set_lib::lemma_len_union(e.union(f).union(g), h);
}

/// Some square can block a rook or a bishop on any square.
pub proof fn lemma_blocker_squares_nonempty(column: int, row: int)
    requires
        0 <= column <= 7,
        0 <= row <= 7,
    ensures
        exists|t: int| rook_blocker_squares(column, row).contains(t),
        exists|t: int| bishop_blocker_squares(column, row).contains(t),
{
    let s = column * 8 + row;
    if row >= 2 {
        assert(step_squares(s, -1, 1, row).contains(step_square(s, -1, 1)));
        assert(rook_blocker_squares(column, row).contains(s - 1));
    } else {
        assert(step_squares(s, 1, 1, 7 - row).contains(step_square(s, 1, 1)));
        assert(rook_blocker_squares(column, row).contains(s + 1));
    }
    let forward = range_len(1, 8 - column);
    if row >= 4 && column <= 3 {
        assert(step_squares(s, 7, 1, min_int(row, forward)).contains(step_square(s, 7, 1)));
        assert(bishop_blocker_squares(column, row).contains(s + 7));
    } else if row >= 4 {
        assert(step_squares(s, -9, 1, min_int(row, column)).contains(step_square(s, -9, 1)));
        assert(bishop_blocker_squares(column, row).contains(s - 9));
    } else if column <= 3 {
        assert(step_squares(s, 9, 1, min_int(7 - row, forward)).contains(step_square(s, 9, 1)));
        assert(bishop_blocker_squares(column, row).contains(s + 9));
    } else {
        assert(step_squares(s, -7, 1, min_int(7 - row, column)).contains(step_square(s, -7, 1)));
        assert(bishop_blocker_squares(column, row).contains(s - 7));
    }
}

/// Length of the counting range `lo..hi` (empty when `hi <= lo`).
pub open spec fn range_len(lo: int, hi: int) -> int {
    if hi > lo { hi - lo } else { 0 }
}

/// Squares whose occupation can stop a bishop on (`column`, `row`): its diagonals without
/// the last square toward each edge.
pub open spec fn bishop_blocker_squares(column: int, row: int) -> Set<int> {
    let s = column * 8 + row;
    let left = row;
    let right = 7 - row;
    let forward = range_len(1, 8 - column);
    let back = column;
    step_squares(s, 7, 1, min_int(left, forward))
        .union(step_squares(s, -9, 1, min_int(left, back)))
        .union(step_squares(s, 9, 1, min_int(right, forward)))
        .union(step_squares(s, -7, 1, min_int(right, back)))
}

proof fn lemma_step_squares_extend(s: int, step: int, lo: int, hi: int)
    requires
        lo <= hi,
    ensures
        step_squares(s, step, lo, hi + 1) == step_squares(s, step, lo, hi).insert(s + step * hi),
{
    assert forall|t: int| #[trigger] step_squares(s, step, lo, hi + 1).contains(t) implies step_squares(
        s,
        step,
        lo,
        hi,
    ).insert(s + step * hi).contains(t) by {
        let k = choose|k: int| lo <= k < hi + 1 && t == step_square(s, step, k);
        if k < hi {
            assert(step_squares(s, step, lo, hi).contains(t));
        }
    }
    assert forall|t: int| #[trigger] step_squares(s, step, lo, hi).insert(s + step * hi).contains(t)
        implies step_squares(s, step, lo, hi + 1).contains(t) by {
        if t == s + step * hi {
            assert(lo <= hi < hi + 1 && t == step_square(s, step, hi));
        } else {
            let k = choose|k: int| lo <= k < hi && t == step_square(s, step, k);
            assert(lo <= k < hi + 1 && t == step_square(s, step, k));
        }
    }
    assert(step_squares(s, step, lo, hi + 1) =~= step_squares(s, step, lo, hi).insert(
        s + step * hi,
    ));
}

proof fn lemma_step_squares_empty(s: int, step: int, lo: int, hi: int)
    requires
        hi <= lo,
    ensures
        step_squares(s, step, lo, hi) == Set::<int>::empty(),
{
    assert(step_squares(s, step, lo, hi) =~= Set::<int>::empty());
}

/// Sets `s + step * k` for `1 <= k < n` on `board` (steps downward when `!up`).
fn set_steps(board: &mut Bitboard, s: usize, up: bool, step: usize, n: usize)
    requires
        up ==> n <= 1 || s + step * (n - 1) < 64,
        !up ==> n <= 1 || (s >= step * (n - 1) && s - step < 64),
        step <= 9,
        n <= 65,
    ensures
        final(board)@ == old(board)@.union(
            step_squares(s as int, if up { step as int } else { -step }, 1, n as int),
        ),
{
    let ghost stp: int = if up { step as int } else { -step };
    proof {
        lemma_step_squares_empty(s as int, stp, 1, 1);
        assert(old(board)@ =~= old(board)@.union(step_squares(s as int, stp, 1, 1)));
    }
    if n <= 1 {
        proof {
            lemma_step_squares_empty(s as int, stp, 1, n as int);
            assert(old(board)@ =~= old(board)@.union(step_squares(s as int, stp, 1, n as int)));
        }
        return ;
    }
    let mut val: usize = 1;
    while val < n
        invariant
            1 <= val <= n,
            n <= 65,
            step <= 9,
            stp == if up { step as int } else { -step },
            up ==> s + step * (n - 1) < 64,
            !up ==> (s >= step * (n - 1) && s - step < 64),
            board@ == old(board)@.union(step_squares(s as int, stp, 1, val as int)),
        decreases n - val,
    {
        proof {
            assert(step * val <= step * (n - 1)) by (nonlinear_arith)
                requires
                    val <= n - 1,
            ;
            assert(step * val >= step) by (nonlinear_arith)
                requires
                    val >= 1,
            ;
            assert(stp * val == if up { (step * val) as int } else { -(step * val) }) by (nonlinear_arith)
                requires
                    stp == if up { step as int } else { -step },
            ;
            lemma_step_squares_extend(s as int, stp, 1, val as int);
        }
        if up {
            board.set_field(s + step * val);
        } else {
            board.set_field(s - step * val);
        }
        assert(board@ =~= old(board)@.union(step_squares(s as int, stp, 1, val + 1)));
        val = val + 1;
    }
}

/// The squares whose occupation can stop a bishop on (`column`, `row`).
pub fn get_bishop_blockers_for_field(column: usize, row: usize) -> (blockers: Bitboard)
    requires
        column <= 8,
        row <= 7,
    ensures
        blockers@ == bishop_blocker_squares(column as int, row as int),
{
    let mut blockers = Bitboard::new();
    let position: usize = column * 8 + row;
    let left = row;
    let right = 7 - row;
    let forward = if column < 8 { 7 - column } else { 0 };
    let back = column;
    let left_fw_moves = if left <= forward { left } else { forward };
    let left_bw_moves = if left <= back { left } else { back };
    let right_fw_moves = if right <= forward { right } else { forward };
    let right_bw_moves = if right <= back { right } else { back };
    assert(blockers@ =~= Set::<int>::empty());
    set_steps(&mut blockers, position, true, 7, left_fw_moves);
    set_steps(&mut blockers, position, false, 9, left_bw_moves);
    set_steps(&mut blockers, position, true, 9, right_fw_moves);
    set_steps(&mut blockers, position, false, 7, right_bw_moves);
    assert(blockers@ =~= bishop_blocker_squares(column as int, row as int));
    blockers
}


/// Squares whose occupation can stop a rook on (`column`, `row`): its lines without the
/// last square toward each edge.
pub open spec fn rook_blocker_squares(column: int, row: int) -> Set<int> {
    let s = column * 8 + row;
    step_squares(s, -1, 1, row)
        .union(step_squares(s, 1, 1, if row <= 6 { 7 - row } else { 0 }))
        .union(step_squares(s, 8, 1, if column <= 6 { 7 - column } else { 0 }))
        .union(step_squares(s, -8, 1, column))
}

/// The squares whose occupation can stop a rook on (`column`, `row`).
pub fn get_rook_blockers_for_field(column: usize, row: usize) -> (moves: Bitboard)
    requires
        column * 8 + row <= usize::MAX,
        row > 1 ==> column * 8 + row - 1 < 64,
        row < 6 ==> column * 8 + 6 < 64,
        column < 6 ==> row + 48 < 64,
        column > 1 ==> column * 8 + row - 8 < 64,
    ensures
        moves@ == rook_blocker_squares(column as int, row as int),
{
    let mut moves = Bitboard::new();
    let position: usize = column * 8 + row;
    assert(moves@ =~= Set::<int>::empty());
    let left = row;
    let right = if row <= 6 { 7 - row } else { 0 };
    let forward = if column <= 6 { 7 - column } else { 0 };
    let back = column;
    set_steps(&mut moves, position, false, 1, left);
    set_steps(&mut moves, position, true, 1, right);
    set_steps(&mut moves, position, true, 8, forward);
    set_steps(&mut moves, position, false, 8, back);
    assert(moves@ =~= rook_blocker_squares(column as int, row as int));
    moves
}

} // verus!





use vstd::prelude::*;
use crate::board::bitboard::{Bitboard, bit, bits, lowest_square, lemma_lowest_square_range, lemma_bits_and, lemma_bits_or, lemma_bits_zero};
use crate::board::board::{Chessboard, piece_bits};
use crate::figures::color::Color;
use crate::figures::piece::Piece;
use crate::helper::magic_bitboards::helper::prefix_squares;
use crate::helper::moves_by_field::{
    MoveInEveryDirection, get_moves_for_field, knight_targets, knight_moves_for_square,
    pawn_threat_targets, pawn_takes_for_square, ray_in_board, ray, file_of, rank_of, min_int,
};

verus! {

/// An opponent piece on `position` that moves like a rook (`rook_like`) or like a bishop.
pub open spec fn spec_is_line_attacker(board: Chessboard, position: int, rook_like: bool) -> bool {
    let opp = board.current_move.other();
    bit(piece_bits(board, opp, Piece::Queen), position) || if rook_like {
        bit(piece_bits(board, opp, Piece::Rook), position)
    } else {
        bit(piece_bits(board, opp, Piece::Bishop), position)
    }
}

/// Whether the opponent has a line attacker of the given kind on `position`.
pub fn is_line_attacker(board: &Chessboard, position: usize, rook_like: bool) -> (r: bool)
    requires
        position < 64,
    ensures
        r == spec_is_line_attacker(*board, position as int, rook_like),
{
    if rook_like {
        is_rook_movement_figure(board, position)
    } else {
        is_bishop_movement_figure(board, position)
    }
}

fn is_rook_movement_figure(board: &Chessboard, position: usize) -> (r: bool)
    requires
        position < 64,
    ensures
        r == spec_is_line_attacker(*board, position as int, true),
{
    board.is_queen_or_rook(board.get_opponent_color(), position)
}

fn is_bishop_movement_figure(board: &Chessboard, position: usize) -> (r: bool)
    requires
        position < 64,
    ensures
        r == spec_is_line_attacker(*board, position as int, false),
{
    board.is_queen_or_bishop(board.get_opponent_color(), position)
}

/// Walking out from the king along `ray` from index `k`: every square up to the first piece must
/// be attacked by the opponent; if that piece is a matching line attacker, the squares up to and
/// including it are where a check along this ray can be stopped.
pub open spec fn spec_direction_check(board: Chessboard, opponent_moves: u64, ray: Seq<usize>, rook_like: bool, k: int) -> Option<Set<int>>
    decreases ray.len() - k,
{
    if k >= ray.len() || k < 0 {
        None
    } else {
        let movement = ray[k] as int;
        if bit(board.positions.board, movement) {
            if spec_is_line_attacker(board, movement, rook_like) {
                Some(prefix_squares(ray, k + 1))
            } else {
                None
            }
        } else if !bit(opponent_moves, movement) {
            None
        } else {
            spec_direction_check(board, opponent_moves, ray, rook_like, k + 1)
        }
    }
}

fn check_single_direction_check(board: &Chessboard, opponent_moves: Bitboard, moves: &Vec<usize>, rook_like: bool) -> (r: Option<Bitboard>)
    requires
        ray_in_board(moves@),
    ensures
        match r {
            Some(f) => spec_direction_check(*board, opponent_moves.board, moves@, rook_like, 0) == Some(f@),
            None => spec_direction_check(*board, opponent_moves.board, moves@, rook_like, 0) is None,
        },
{
    let mut fields_to_prevent_check: Bitboard = Bitboard::new();
    let mut i: usize = 0;
    while i < moves.len()
        invariant
            i <= moves.len(),
            ray_in_board(moves@),
            fields_to_prevent_check@ == prefix_squares(moves@, i as int),
            spec_direction_check(*board, opponent_moves.board, moves@, rook_like, 0)
                == spec_direction_check(*board, opponent_moves.board, moves@, rook_like, i as int),
        decreases moves.len() - i,
    {
        let movement = moves[i];
        proof {
            crate::helper::magic_bitboards::helper::lemma_prefix_squares_extend(moves@, i as int);
        }
        if board.positions.field_is_used(movement) {
            if is_line_attacker(board, movement, rook_like) {
                fields_to_prevent_check.set_field(movement);
                return Some(fields_to_prevent_check);
            }
            // field is used by our own figure or opponent not threatening us
            return None;
        } else if !opponent_moves.field_is_used(movement) {
            // opponent does not attack this field thus there can not be a attacker in this row
            return None;
        }
        fields_to_prevent_check.set_field(movement);
        i = i + 1;
    }
    assert(prefix_squares(moves@, 0) =~= Set::<int>::empty());
    None
}

/// The first direction among `rays` (in order) that yields check squares.
pub open spec fn first_check(board: Chessboard, opponent_moves: u64, rays: Seq<Seq<usize>>, rook_like: bool) -> Option<Set<int>>
    decreases rays.len(),
{
    if rays.len() == 0 {
        None
    } else {
        match spec_direction_check(board, opponent_moves, rays[0], rook_like, 0) {
            Some(s) => Some(s),
            None => first_check(board, opponent_moves, rays.drop_first(), rook_like),
        }
    }
}

/// The straight rays of `s`: left, right, forward, back.
pub open spec fn rook_rays(s: int) -> Seq<Seq<usize>> {
    let f = file_of(s);
    let r = rank_of(s);
    seq![ray(s, -1, f), ray(s, 1, 7 - f), ray(s, 8, 7 - r), ray(s, -8, r)]
}

/// The diagonal rays of `s`: left forward, right forward, left back, right back.
pub open spec fn bishop_check_rays(s: int) -> Seq<Seq<usize>> {
    let f = file_of(s);
    let r = rank_of(s);
    seq![
        ray(s, 7, min_int(f, 7 - r)),
        ray(s, 9, min_int(7 - f, 7 - r)),
        ray(s, -9, min_int(f, r)),
        ray(s, -7, min_int(7 - f, r)),
    ]
}

/// Squares that stop a check by a rook or queen along a line to the king.
pub open spec fn spec_rook_check_field(board: Chessboard, king_position: int, opponent_moves: u64) -> Option<Set<int>> {
    if 0 <= king_position < 64 {
        first_check(board, opponent_moves, rook_rays(king_position), true)
    } else {
        None
    }
}

/// Squares that stop a check by a bishop or queen along a diagonal to the king.
pub open spec fn spec_bishop_check_field(board: Chessboard, king_position: int, opponent_moves: u64) -> Option<Set<int>> {
    if 0 <= king_position < 64 {
        first_check(board, opponent_moves, bishop_check_rays(king_position), false)
    } else {
        None
    }
}

/// The squares that stop a check along a diagonal, if a bishop or queen gives one.
pub fn check_and_get_bishop_movement_check_field(board: &Chessboard, king_position: &usize, opponent_moves: Bitboard) -> (r: Option<Bitboard>)
    ensures
        match r {
            Some(f) => spec_bishop_check_field(*board, *king_position as int, opponent_moves.board) == Some(f@),
            None => spec_bishop_check_field(*board, *king_position as int, opponent_moves.board) is None,
        },
{
    if *king_position < 64 {
        let movement = get_moves_for_field(*king_position);
        let ghost rays = bishop_check_rays(*king_position as int);
        assert(rays.drop_first() =~= seq![rays[1], rays[2], rays[3]]);
        assert(rays.drop_first().drop_first() =~= seq![rays[2], rays[3]]);
        assert(rays.drop_first().drop_first().drop_first() =~= seq![rays[3]]);
        assert(rays.drop_first().drop_first().drop_first().drop_first() =~= Seq::<Seq<usize>>::empty());
        proof {
            reveal_with_fuel(first_check, 5);
        }
        let left_fw = check_single_direction_check(board, opponent_moves, &movement.left_forward, false);
        if left_fw.is_some() {
            return left_fw;
        }
        let right_fw = check_single_direction_check(board, opponent_moves, &movement.right_forward, false);
        if right_fw.is_some() {
            return right_fw;
        }
        let left_bw = check_single_direction_check(board, opponent_moves, &movement.left_back, false);
        if left_bw.is_some() {
            return left_bw;
        }
        let right_bw = check_single_direction_check(board, opponent_moves, &movement.right_back, false);
        if right_bw.is_some() {
            return right_bw;
        }
    }
    None
}

/// The squares that stop a check along a line, if a rook or queen gives one.
pub fn check_and_get_rook_movement_check_field(board: &Chessboard, king_position: &usize, opponent_moves: Bitboard) -> (r: Option<Bitboard>)
    ensures
        match r {
            Some(f) => spec_rook_check_field(*board, *king_position as int, opponent_moves.board) == Some(f@),
            None => spec_rook_check_field(*board, *king_position as int, opponent_moves.board) is None,
        },
{
    if *king_position < 64 {
        let moves = get_moves_for_field(*king_position);
        let ghost rays = rook_rays(*king_position as int);
        assert(rays.drop_first() =~= seq![rays[1], rays[2], rays[3]]);
        assert(rays.drop_first().drop_first() =~= seq![rays[2], rays[3]]);
        assert(rays.drop_first().drop_first().drop_first() =~= seq![rays[3]]);
        assert(rays.drop_first().drop_first().drop_first().drop_first() =~= Seq::<Seq<usize>>::empty());
        proof {
            reveal_with_fuel(first_check, 5);
        }
        let left = check_single_direction_check(board, opponent_moves, &moves.left, true);
        if left.is_some() {
            return left;
        }
        // right
        let right = check_single_direction_check(board, opponent_moves, &moves.right, true);
        if right.is_some() {
            return right;
        }
        // forward
        let forward = check_single_direction_check(board, opponent_moves, &moves.forward, true);
        if forward.is_some() {
            return forward;
        }
        // backward
        let backward = check_single_direction_check(board, opponent_moves, &moves.back, true);
        if backward.is_some() {
            return backward;
        }
    }
    None
}

/// The lowest square of a knight of the opponent that attacks `king_position`.
pub open spec fn spec_knight_check_field(board: Chessboard, king_position: int) -> Option<int> {
    let checking = knight_targets(king_position).intersect(bits(piece_bits(board, board.current_move.other(), Piece::Knight)));
    if 0 <= king_position < 64 && checking != Set::<int>::empty() {
        Some(lowest_square(checking))
    } else {
        None
    }
}

/// The lowest square of a pawn of the opponent that attacks `king_position`.
pub open spec fn spec_pawn_check_field(board: Chessboard, king_position: int) -> Option<int> {
    let checking = pawn_threat_targets(board.current_move, king_position).intersect(
        bits(piece_bits(board, board.current_move.other(), Piece::Pawn)),
    );
    if checking != Set::<int>::empty() {
        Some(lowest_square(checking))
    } else {
        None
    }
}

/// The square of a knight that gives check, if one does.
pub fn check_and_get_knight_check_field(board: &Chessboard, king_position: usize) -> (r: Option<usize>)
    ensures
        r == (match spec_knight_check_field(*board, king_position as int) {
            Some(s) => Some(s as usize),
            None => None::<usize>,
        }),
        r matches Some(s) ==> s < 64,
{
    if king_position < 64 {
        let moves = knight_moves_for_square(king_position);
        let checking_knight_board = Bitboard { board: moves.board & board.get_opponent_piece(Piece::Knight).board };
        proof {
            lemma_bits_and(moves.board, piece_bits(*board, board.current_move.other(), Piece::Knight));
            lemma_bits_zero(checking_knight_board.board);
        }
        if checking_knight_board.board != 0 {
            let first = checking_knight_board.get_first_field();
            return Some(first);
        }
    }
    None
}

/// The square of a pawn that gives check, if one does.
pub fn check_and_get_pawn_check_field(board: &Chessboard, position: usize) -> (r: Option<usize>)
    requires
        position < 64,
    ensures
        r == (match spec_pawn_check_field(*board, position as int) {
            Some(s) => Some(s as usize),
            None => None::<usize>,
        }),
        r matches Some(s) ==> s < 64,
{
    let relevant_pawn_fields = pawn_takes_for_square(board.current_move, position);
    let possible_checks = Bitboard { board: relevant_pawn_fields.board & board.get_opponent_piece(Piece::Pawn).board };
    proof {
        lemma_bits_and(relevant_pawn_fields.board, piece_bits(*board, board.current_move.other(), Piece::Pawn));
        lemma_bits_zero(possible_checks.board);
    }
    if possible_checks.board == 0 {
        None
    } else {
        Some(possible_checks.get_first_field())
    }
}

/// The squares of an optional set, or no squares.
pub open spec fn or_empty(s: Option<Set<int>>) -> Set<int> {
    match s {
        Some(f) => f,
        None => Set::empty(),
    }
}

/// The squares of an optional square, or no squares.
pub open spec fn square_or_empty(s: Option<int>) -> Set<int> {
    match s {
        Some(f) => set![f],
        None => Set::empty(),
    }
}

/// All squares on which a piece other than the king can stop the checks against the king on
/// `king_position`: the line to a checking rook or queen, the diagonal to a checking bishop or
/// queen (each with the checking piece), a checking knight and a checking pawn.
pub open spec fn spec_fields_to_prevent_check(board: Chessboard, king_position: int, opponent_moves: u64) -> Set<int> {
    or_empty(spec_rook_check_field(board, king_position, opponent_moves))
        + or_empty(spec_bishop_check_field(board, king_position, opponent_moves))
        + square_or_empty(spec_knight_check_field(board, king_position))
        + square_or_empty(spec_pawn_check_field(board, king_position))
}

/// Get all the squares a figure other than the king can go to, to stop an active check.
pub fn get_fields_to_prevent_check(board: &Chessboard, king_position: usize, opponent_moves: Bitboard) -> (r: Bitboard)
    requires
        king_position < 64,
    ensures
        r@ == spec_fields_to_prevent_check(*board, king_position as int, opponent_moves.board),
{
    let mut possible_fields = Bitboard::new();
    proof {
        lemma_bits_zero(possible_fields.board);
    }
    let rook = check_and_get_rook_movement_check_field(board, &king_position, opponent_moves);
    if let Some(rook_checking_field) = rook {
        proof {
            lemma_bits_or(possible_fields.board, rook_checking_field.board);
        }
        possible_fields.board = possible_fields.board | rook_checking_field.board;
    }
    assert(possible_fields@ =~= or_empty(spec_rook_check_field(*board, king_position as int, opponent_moves.board)));
    let bishop = check_and_get_bishop_movement_check_field(board, &king_position, opponent_moves);
    if let Some(bishop_checking_field) = bishop {
        proof {
            lemma_bits_or(possible_fields.board, bishop_checking_field.board);
        }
        possible_fields.board = possible_fields.board | bishop_checking_field.board;
    }
    assert(possible_fields@ =~= or_empty(spec_rook_check_field(*board, king_position as int, opponent_moves.board))
        + or_empty(spec_bishop_check_field(*board, king_position as int, opponent_moves.board)));
    let ghost before_knight = possible_fields@;
    let ghost k = spec_knight_check_field(*board, king_position as int);
    let ghost pw = spec_pawn_check_field(*board, king_position as int);
    proof {
        if let Some(s) = k {
            lemma_lowest_square_range(knight_targets(king_position as int).intersect(
                bits(piece_bits(*board, board.current_move.other(), Piece::Knight))));
        }
        if let Some(s) = pw {
            lemma_lowest_square_range(pawn_threat_targets(board.current_move, king_position as int).intersect(
                bits(piece_bits(*board, board.current_move.other(), Piece::Pawn))));
        }
    }
    if let Some(knight_check_field) = check_and_get_knight_check_field(board, king_position) {
        possible_fields.set_field(knight_check_field);
    }
    assert(possible_fields@ =~= before_knight + square_or_empty(k));
    let ghost before_pawn = possible_fields@;
    if let Some(pawn_check_field) = check_and_get_pawn_check_field(board, king_position) {
        possible_fields.set_field(pawn_check_field);
    }
    assert(possible_fields@ =~= before_pawn + square_or_empty(pw));
    assert(possible_fields@ =~= spec_fields_to_prevent_check(*board, king_position as int, opponent_moves.board));
    possible_fields
}

/// The square `j` steps from `s` in direction `dir`: 0 toward the a-file, 1 toward the h-file,
/// 2 toward the eighth rank, 3 toward the first rank.
pub open spec fn line_square(s: int, dir: int, j: int) -> int {
    if dir == 0 {
        s - j
    } else if dir == 1 {
        s + j
    } else if dir == 2 {
        s + 8 * j
    } else {
        s - 8 * j
    }
}

/// The opponent's rook or queen `k` steps from the king on `s` in direction `dir` (one of the
/// four along the king's rank or file) gives check: it stands on the board, on the king's rank
/// when the direction runs along the rank, and every square between them is empty and attacked
/// by the opponent.
pub open spec fn straight_line_check(board: Chessboard, opponent_moves: u64, s: int, dir: int, k: int) -> bool {
    &&& 0 <= s < 64
    &&& 0 <= dir < 4
    &&& 1 <= k
    &&& 0 <= line_square(s, dir, k) < 64
    &&& (dir < 2 ==> rank_of(line_square(s, dir, k)) == rank_of(s))
    &&& forall|j: int| 1 <= j < k ==> !bit(board.positions.board, #[trigger] line_square(s, dir, j))
        && bit(opponent_moves, line_square(s, dir, j))
    &&& bit(board.positions.board, line_square(s, dir, k))
    &&& spec_is_line_attacker(board, line_square(s, dir, k), true)
}

/// How many squares lie from `s` to the edge in direction `dir`.
pub open spec fn dir_len(s: int, dir: int) -> int {
    if dir == 0 {
        s % 8
    } else if dir == 1 {
        7 - s % 8
    } else if dir == 2 {
        7 - s / 8
    } else {
        s / 8
    }
}

/// The straight ray of `s` in direction `dir` holds the squares `1..=dir_len` steps away, and
/// `k` steps stay on the board (and on the rank, along the rank) exactly up to `dir_len`.
proof fn lemma_dir_ray(s: int, dir: int)
    requires
        0 <= s < 64,
        0 <= dir < 4,
    ensures
        rook_rays(s)[dir].len() == dir_len(s, dir),
        forall|j: int| 0 <= j < dir_len(s, dir) ==> #[trigger] rook_rays(s)[dir][j] as int == line_square(s, dir, j + 1),
        forall|k: int| 1 <= k <= dir_len(s, dir) ==> 0 <= #[trigger] line_square(s, dir, k) < 64
            && (dir < 2 ==> rank_of(line_square(s, dir, k)) == rank_of(s)),
        forall|k: int| 1 <= k && 0 <= #[trigger] line_square(s, dir, k) < 64
            && (dir < 2 ==> rank_of(line_square(s, dir, k)) == rank_of(s)) ==> k <= dir_len(s, dir),
{
    let f = s % 8;
    let r = s / 8;
    assert(s == 8 * r + f && 0 <= f < 8 && 0 <= r < 8);
    assert forall|k: int| 1 <= k <= dir_len(s, dir) implies 0 <= #[trigger] line_square(s, dir, k) < 64
        && (dir < 2 ==> rank_of(line_square(s, dir, k)) == rank_of(s)) by {
        let t = line_square(s, dir, k);
        if dir == 0 {
            assert(t == 8 * r + (f - k) && 0 <= f - k < 8);
            assert(t / 8 == r);
        } else if dir == 1 {
            assert(t == 8 * r + (f + k) && 0 <= f + k < 8);
            assert(t / 8 == r);
        }
    }
    assert forall|k: int| 1 <= k && 0 <= #[trigger] line_square(s, dir, k) < 64
        && (dir < 2 ==> rank_of(line_square(s, dir, k)) == rank_of(s)) implies k <= dir_len(s, dir) by {
        let t = line_square(s, dir, k);
        if dir == 0 {
            assert(t / 8 == r);
            assert(8 * (t / 8) <= t);
        } else if dir == 1 {
            assert(t / 8 == r);
            assert(t < 8 * (t / 8) + 8);
        }
    }
}

/// A check along a ray: every square before the `k`-th is empty and attacked, the `k`-th holds
/// a rook-like attacker, so the squares up to it are where the check is stopped.
proof fn lemma_ray_check_found(board: Chessboard, opponent_moves: u64, r: Seq<usize>, k: int, i: int)
    requires
        1 <= k <= r.len(),
        0 <= i <= k - 1,
        forall|j: int| i <= j < k - 1 ==> !bit(board.positions.board, #[trigger] r[j] as int) && bit(opponent_moves, r[j] as int),
        bit(board.positions.board, r[k - 1] as int),
        spec_is_line_attacker(board, r[k - 1] as int, true),
    ensures
        spec_direction_check(board, opponent_moves, r, true, i) == Some(prefix_squares(r, k)),
    decreases k - 1 - i,
{
    if i < k - 1 {
        lemma_ray_check_found(board, opponent_moves, r, k, i + 1);
    }
}

/// A check found along a ray comes from a rook-like attacker with empty, attacked squares before it.
proof fn lemma_ray_check_source(board: Chessboard, opponent_moves: u64, r: Seq<usize>, i: int)
    requires
        0 <= i,
        spec_direction_check(board, opponent_moves, r, true, i) is Some,
    ensures
        exists|k: int| #![trigger r[k - 1]] i + 1 <= k <= r.len()
            && (forall|j: int| i <= j < k - 1 ==> !bit(board.positions.board, #[trigger] r[j] as int) && bit(opponent_moves, r[j] as int))
            && bit(board.positions.board, r[k - 1] as int)
            && spec_is_line_attacker(board, r[k - 1] as int, true),
    decreases r.len() - i,
{
    if !bit(board.positions.board, r[i] as int) {
        lemma_ray_check_source(board, opponent_moves, r, i + 1);
        let k = choose|k: int| #![trigger r[k - 1]] i + 2 <= k <= r.len()
            && (forall|j: int| i + 1 <= j < k - 1 ==> !bit(board.positions.board, #[trigger] r[j] as int) && bit(opponent_moves, r[j] as int))
            && bit(board.positions.board, r[k - 1] as int)
            && spec_is_line_attacker(board, r[k - 1] as int, true);
        assert(forall|j: int| i <= j < k - 1 ==> !bit(board.positions.board, #[trigger] r[j] as int) && bit(opponent_moves, r[j] as int));
    } else {
        assert(r[(i + 1) - 1] == r[i]);
    }
}

/// A check by a rook or queen along the king's rank or file can always be answered on the
/// squares between them or on the checking piece: the line check squares are found, whichever
/// of the four directions the check comes from, and when no other rook or queen gives check
/// along a line, every square between the king and the checking piece, and the checking piece's
/// square, are squares that stop the check.
pub proof fn law_straight_line_check_is_found(board: Chessboard, opponent_moves: u64, s: int, dir: int, k: int)
    requires
        straight_line_check(board, opponent_moves, s, dir, k),
    ensures
        spec_rook_check_field(board, s, opponent_moves) is Some,
        (forall|d: int, m: int| #[trigger] straight_line_check(board, opponent_moves, s, d, m) ==> d == dir) ==> forall|j: int|
            1 <= j <= k ==> spec_fields_to_prevent_check(board, s, opponent_moves).contains(#[trigger] line_square(s, dir, j)),
{
    let rays = rook_rays(s);
    assert(rays.drop_first() =~= seq![rays[1], rays[2], rays[3]]);
    assert(rays.drop_first().drop_first() =~= seq![rays[2], rays[3]]);
    assert(rays.drop_first().drop_first().drop_first() =~= seq![rays[3]]);
    assert(rays.drop_first().drop_first().drop_first().drop_first() =~= Seq::<Seq<usize>>::empty());
    reveal_with_fuel(first_check, 5);
    lemma_dir_ray(s, dir);
    let r = rays[dir];
    assert(k <= dir_len(s, dir));
    assert forall|j: int| 0 <= j < k - 1 implies !bit(board.positions.board, #[trigger] r[j] as int) && bit(opponent_moves, r[j] as int) by {
        assert(r[j] as int == line_square(s, dir, j + 1));
    }
    assert(r[k - 1] as int == line_square(s, dir, k));
    lemma_ray_check_found(board, opponent_moves, r, k, 0);
    let found = prefix_squares(r, k);
    if forall|d: int, m: int| #[trigger] straight_line_check(board, opponent_moves, s, d, m) ==> d == dir {
        assert forall|d: int| 0 <= d < dir implies spec_direction_check(board, opponent_moves, #[trigger] rays[d], true, 0) is None by {
            if spec_direction_check(board, opponent_moves, rays[d], true, 0) is Some {
                lemma_dir_ray(s, d);
                let rd = rays[d];
                lemma_ray_check_source(board, opponent_moves, rd, 0);
                let m = choose|m: int| #![trigger rd[m - 1]] 1 <= m <= rd.len()
                    && (forall|j: int| 0 <= j < m - 1 ==> !bit(board.positions.board, #[trigger] rd[j] as int) && bit(opponent_moves, rd[j] as int))
                    && bit(board.positions.board, rd[m - 1] as int)
                    && spec_is_line_attacker(board, rd[m - 1] as int, true);
                assert forall|j: int| 1 <= j < m implies !bit(board.positions.board, #[trigger] line_square(s, d, j))
                    && bit(opponent_moves, line_square(s, d, j)) by {
                    assert(rd[j - 1] as int == line_square(s, d, j));
                }
                assert(rd[m - 1] as int == line_square(s, d, m));
                assert(straight_line_check(board, opponent_moves, s, d, m));
            }
        }
        assert(spec_rook_check_field(board, s, opponent_moves) == Some(found));
        assert forall|j: int| 1 <= j <= k implies spec_fields_to_prevent_check(board, s, opponent_moves).contains(
            #[trigger] line_square(s, dir, j),
        ) by {
            assert(r[j - 1] as int == line_square(s, dir, j));
            assert(found.contains(line_square(s, dir, j)));
        }
    }
}

/// The square `j` steps from `s` along diagonal direction `dir`: 0 toward the a-file and the
/// eighth rank, 1 toward the h-file and the eighth rank, 2 toward the a-file and the first
/// rank, 3 toward the h-file and the first rank.
pub open spec fn diagonal_square(s: int, dir: int, j: int) -> int {
    if dir == 0 {
        s + 7 * j
    } else if dir == 1 {
        s + 9 * j
    } else if dir == 2 {
        s - 9 * j
    } else {
        s - 7 * j
    }
}

/// `j` diagonal steps from `s` in direction `dir` stay on the board: neither the file nor the
/// rank runs past an edge.
pub open spec fn diagonal_on_board(s: int, dir: int, j: int) -> bool {
    let f = file_of(s);
    let r = rank_of(s);
    if dir == 0 {
        f - j >= 0 && r + j <= 7
    } else if dir == 1 {
        f + j <= 7 && r + j <= 7
    } else if dir == 2 {
        f - j >= 0 && r - j >= 0
    } else {
        f + j <= 7 && r - j >= 0
    }
}

/// The opponent's bishop or queen `k` diagonal steps from the king on `s` in direction `dir`
/// gives check: it stands on the board and every square between them is empty and attacked by
/// the opponent.
pub open spec fn diagonal_check(board: Chessboard, opponent_moves: u64, s: int, dir: int, k: int) -> bool {
    &&& 0 <= s < 64
    &&& 0 <= dir < 4
    &&& 1 <= k
    &&& diagonal_on_board(s, dir, k)
    &&& forall|j: int| 1 <= j < k ==> !bit(board.positions.board, #[trigger] diagonal_square(s, dir, j))
        && bit(opponent_moves, diagonal_square(s, dir, j))
    &&& bit(board.positions.board, diagonal_square(s, dir, k))
    &&& spec_is_line_attacker(board, diagonal_square(s, dir, k), false)
}

/// How many squares lie from `s` to the edge along diagonal direction `dir`.
pub open spec fn diagonal_len(s: int, dir: int) -> int {
    let f = s % 8;
    let r = s / 8;
    if dir == 0 {
        min_int(f, 7 - r)
    } else if dir == 1 {
        min_int(7 - f, 7 - r)
    } else if dir == 2 {
        min_int(f, r)
    } else {
        min_int(7 - f, r)
    }
}

proof fn lemma_diagonal_ray(s: int, dir: int)
    requires
        0 <= s < 64,
        0 <= dir < 4,
    ensures
        bishop_check_rays(s)[dir].len() == diagonal_len(s, dir),
        forall|j: int| 0 <= j < diagonal_len(s, dir) ==> #[trigger] bishop_check_rays(s)[dir][j] as int == diagonal_square(s, dir, j + 1),
        forall|k: int| 1 <= k ==> (#[trigger] diagonal_on_board(s, dir, k) <==> k <= diagonal_len(s, dir)),
        forall|k: int| 1 <= k <= diagonal_len(s, dir) ==> 0 <= #[trigger] diagonal_square(s, dir, k) < 64,
{
    let f = s % 8;
    let r = s / 8;
    assert(s == 8 * r + f && 0 <= f < 8 && 0 <= r < 8);
    assert(file_of(s) == f && rank_of(s) == r);
}

/// A check found along a diagonal ray comes from a bishop-like attacker with empty, attacked
/// squares before it.
proof fn lemma_diagonal_check_source(board: Chessboard, opponent_moves: u64, r: Seq<usize>, i: int)
    requires
        0 <= i,
        spec_direction_check(board, opponent_moves, r, false, i) is Some,
    ensures
        exists|k: int| #![trigger r[k - 1]] i + 1 <= k <= r.len()
            && (forall|j: int| i <= j < k - 1 ==> !bit(board.positions.board, #[trigger] r[j] as int) && bit(opponent_moves, r[j] as int))
            && bit(board.positions.board, r[k - 1] as int)
            && spec_is_line_attacker(board, r[k - 1] as int, false),
    decreases r.len() - i,
{
    if !bit(board.positions.board, r[i] as int) {
        lemma_diagonal_check_source(board, opponent_moves, r, i + 1);
        let k = choose|k: int| #![trigger r[k - 1]] i + 2 <= k <= r.len()
            && (forall|j: int| i + 1 <= j < k - 1 ==> !bit(board.positions.board, #[trigger] r[j] as int) && bit(opponent_moves, r[j] as int))
            && bit(board.positions.board, r[k - 1] as int)
            && spec_is_line_attacker(board, r[k - 1] as int, false);
        assert(forall|j: int| i <= j < k - 1 ==> !bit(board.positions.board, #[trigger] r[j] as int) && bit(opponent_moves, r[j] as int));
    } else {
        assert(r[(i + 1) - 1] == r[i]);
    }
}

proof fn lemma_diagonal_check_found(board: Chessboard, opponent_moves: u64, r: Seq<usize>, k: int, i: int)
    requires
        1 <= k <= r.len(),
        0 <= i <= k - 1,
        forall|j: int| i <= j < k - 1 ==> !bit(board.positions.board, #[trigger] r[j] as int) && bit(opponent_moves, r[j] as int),
        bit(board.positions.board, r[k - 1] as int),
        spec_is_line_attacker(board, r[k - 1] as int, false),
    ensures
        spec_direction_check(board, opponent_moves, r, false, i) == Some(prefix_squares(r, k)),
    decreases k - 1 - i,
{
    if i < k - 1 {
        lemma_diagonal_check_found(board, opponent_moves, r, k, i + 1);
    }
}

/// A check by a bishop or queen along a diagonal can always be answered on the squares between
/// them or on the checking piece: the diagonal check squares are found, whichever of the four
/// diagonals the check comes from, and when no other bishop or queen gives check along a
/// diagonal, every square between the king and the checking piece, and the checking piece's
/// square, are squares that stop the check.
pub proof fn law_diagonal_check_is_found(board: Chessboard, opponent_moves: u64, s: int, dir: int, k: int)
    requires
        diagonal_check(board, opponent_moves, s, dir, k),
    ensures
        spec_bishop_check_field(board, s, opponent_moves) is Some,
        (forall|d: int, m: int| #[trigger] diagonal_check(board, opponent_moves, s, d, m) ==> d == dir) ==> forall|j: int|
            1 <= j <= k ==> spec_fields_to_prevent_check(board, s, opponent_moves).contains(#[trigger] diagonal_square(s, dir, j)),
{
    let rays = bishop_check_rays(s);
    assert(rays.drop_first() =~= seq![rays[1], rays[2], rays[3]]);
    assert(rays.drop_first().drop_first() =~= seq![rays[2], rays[3]]);
    assert(rays.drop_first().drop_first().drop_first() =~= seq![rays[3]]);
    assert(rays.drop_first().drop_first().drop_first().drop_first() =~= Seq::<Seq<usize>>::empty());
    reveal_with_fuel(first_check, 5);
    lemma_diagonal_ray(s, dir);
    let r = rays[dir];
    assert(k <= diagonal_len(s, dir));
    assert forall|j: int| 0 <= j < k - 1 implies !bit(board.positions.board, #[trigger] r[j] as int) && bit(opponent_moves, r[j] as int) by {
        assert(r[j] as int == diagonal_square(s, dir, j + 1));
    }
    assert(r[k - 1] as int == diagonal_square(s, dir, k));
    lemma_diagonal_check_found(board, opponent_moves, r, k, 0);
    let found = prefix_squares(r, k);
    if forall|d: int, m: int| #[trigger] diagonal_check(board, opponent_moves, s, d, m) ==> d == dir {
        assert forall|d: int| 0 <= d < dir implies spec_direction_check(board, opponent_moves, #[trigger] rays[d], false, 0) is None by {
            if spec_direction_check(board, opponent_moves, rays[d], false, 0) is Some {
                lemma_diagonal_ray(s, d);
                let rd = rays[d];
                lemma_diagonal_check_source(board, opponent_moves, rd, 0);
                let m = choose|m: int| #![trigger rd[m - 1]] 1 <= m <= rd.len()
                    && (forall|j: int| 0 <= j < m - 1 ==> !bit(board.positions.board, #[trigger] rd[j] as int) && bit(opponent_moves, rd[j] as int))
                    && bit(board.positions.board, rd[m - 1] as int)
                    && spec_is_line_attacker(board, rd[m - 1] as int, false);
                assert forall|j: int| 1 <= j < m implies !bit(board.positions.board, #[trigger] diagonal_square(s, d, j))
                    && bit(opponent_moves, diagonal_square(s, d, j)) by {
                    assert(rd[j - 1] as int == diagonal_square(s, d, j));
                }
                assert(rd[m - 1] as int == diagonal_square(s, d, m));
                assert(diagonal_on_board(s, d, m));
                assert(diagonal_check(board, opponent_moves, s, d, m));
            }
        }
        assert(spec_bishop_check_field(board, s, opponent_moves) == Some(found));
        assert forall|j: int| 1 <= j <= k implies spec_fields_to_prevent_check(board, s, opponent_moves).contains(
            #[trigger] diagonal_square(s, dir, j),
        ) by {
            assert(r[j - 1] as int == diagonal_square(s, dir, j));
            assert(found.contains(diagonal_square(s, dir, j)));
        }
    }
}

} // verus!

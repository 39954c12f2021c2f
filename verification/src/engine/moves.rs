use vstd::prelude::*;
use std::collections::HashMap;
use crate::board::bitboard::{
    Bitboard, bit, bits, bitboard_of, fields_of, first_field, set_fields, lemma_bits_or, lemma_bitboard_of,
    lemma_set_fields_members,
};
use crate::board::board::{Chessboard, piece_bits, opponents_bits, used_bits};
use crate::engine::checked::{get_fields_to_prevent_check, spec_fields_to_prevent_check};
use crate::engine::engine::{PossibleMove, moves_from};
use crate::engine::ray::{get_pinned_pieces_and_possible_moves, pins_match, spec_pinned_pieces};
use crate::figures::color::Color;
use crate::figures::king::{get_fields_threatened_by_king, get_all_king_moves_in_check, get_possible_king_takes, get_possible_king_moves, spec_king_moves};
use crate::figures::knight::{
    get_fields_threatened_by_knight, get_possible_knight_moves, get_possible_knight_moves_to_prevent_check,
    get_possible_knight_takes,
};
use crate::figures::pawn::{
    get_fields_threatened_by_pawn, get_possible_pawn_moves, get_possible_pawn_moves_to_prevent_check,
    get_possible_pawn_takes_and_promotion, pawn_can_step, vec_contains, spec_pawn_moves, spec_pawn_prevent_check,
    spec_pawn_takes_and_promotion,
};
use crate::figures::piece::Piece;
use crate::figures::sliding_moves::{
    get_fields_threatened_by_bishop, get_fields_threatened_by_queen, get_fields_threatened_by_rook,
    without_king, get_possible_bishop_moves, get_possible_bishop_moves_to_prevent_check,
    get_possible_bishop_takes, get_possible_queen_moves, get_possible_queen_moves_to_prevent_check,
    get_possible_queen_takes, get_possible_rook_moves, get_possible_rook_moves_to_prevent_check,
    get_possible_rook_takes, spec_bishop_moves, spec_bishop_prevent, spec_bishop_takes, spec_rook_moves,
    spec_rook_prevent, spec_rook_takes,
};
use crate::helper::magic_bitboards::helper::{bishop_attacks, rook_attacks};
use crate::helper::moves_by_field::{king_targets, knight_targets, pawn_threat_targets};

verus! {

/// The squares a `kind` piece of `color` on `position` attacks; sliding pieces look through the
/// king of the other side on `king_position`.
pub open spec fn spec_threats_of(board: Chessboard, color: Color, kind: Piece, king_position: int, position: int) -> Set<int> {
    match kind {
        Piece::Pawn => pawn_threat_targets(color, position),
        Piece::Rook => rook_attacks(position, without_king(board, king_position)),
        Piece::Bishop => bishop_attacks(position, without_king(board, king_position)),
        Piece::Queen => bishop_attacks(position, without_king(board, king_position)).union(
            rook_attacks(position, without_king(board, king_position)),
        ),
        Piece::Knight => knight_targets(position),
        Piece::King => king_targets(position),
    }
}

/// The squares the pieces on `squares` attack together.
pub open spec fn threats_over(board: Chessboard, color: Color, kind: Piece, king_position: int, squares: Seq<usize>) -> Set<int>
    decreases squares.len(),
{
    if squares.len() == 0 {
        Set::empty()
    } else {
        threats_over(board, color, kind, king_position, squares.drop_last()).union(
            spec_threats_of(board, color, kind, king_position, squares.last() as int),
        )
    }
}

/// How many of the pieces on `squares` attack `king_position`.
pub open spec fn checks_over(board: Chessboard, color: Color, kind: Piece, king_position: int, squares: Seq<usize>) -> int
    decreases squares.len(),
{
    if squares.len() == 0 {
        0
    } else {
        checks_over(board, color, kind, king_position, squares.drop_last()) + if spec_threats_of(
            board,
            color,
            kind,
            king_position,
            squares.last() as int,
        ).contains(king_position) {
            1int
        } else {
            0int
        }
    }
}

proof fn lemma_checks_over_prefix(board: Chessboard, color: Color, kind: Piece, king_position: int, squares: Seq<usize>, i: int)
    requires
        0 <= i <= squares.len(),
    ensures
        0 <= checks_over(board, color, kind, king_position, squares.take(i)) <= checks_over(board, color, kind, king_position, squares),
    decreases squares.len() - i,
{
    if i < squares.len() {
        lemma_checks_over_prefix(board, color, kind, king_position, squares, i + 1);
        assert(squares.take(i + 1).drop_last() =~= squares.take(i));
        lemma_checks_over_nonneg(board, color, kind, king_position, squares.take(i));
        assert(checks_over(board, color, kind, king_position, squares.take(i))
            <= checks_over(board, color, kind, king_position, squares.take(i + 1)));
    } else {
        assert(squares.take(i) =~= squares);
        lemma_checks_over_nonneg(board, color, kind, king_position, squares);
    }
}

proof fn lemma_checks_over_nonneg(board: Chessboard, color: Color, kind: Piece, king_position: int, squares: Seq<usize>)
    ensures
        0 <= checks_over(board, color, kind, king_position, squares),
    decreases squares.len(),
{
    if squares.len() > 0 {
        lemma_checks_over_nonneg(board, color, kind, king_position, squares.drop_last());
    }
}

/// The squares attacked by `color`'s pieces of `kind`.
pub open spec fn kind_threats(board: Chessboard, color: Color, kind: Piece, king_position: int) -> Set<int> {
    threats_over(board, color, kind, king_position, fields_of(piece_bits(board, color, kind)))
}

/// How many of `color`'s pieces of `kind` attack `king_position`.
pub open spec fn kind_checks(board: Chessboard, color: Color, kind: Piece, king_position: int) -> int {
    checks_over(board, color, kind, king_position, fields_of(piece_bits(board, color, kind)))
}

/// The square of `color`'s king (64 when there is none).
pub open spec fn king_square(board: Chessboard, color: Color) -> int {
    first_field(piece_bits(board, color, Piece::King))
}

/// Every square `color` attacks, sliding pieces looking through the other king on
/// `king_position`.
pub open spec fn spec_threatened_fields(board: Chessboard, color: Color, king_position: int) -> Set<int> {
    kind_threats(board, color, Piece::Pawn, king_position)
        + kind_threats(board, color, Piece::Rook, king_position)
        + kind_threats(board, color, Piece::Bishop, king_position)
        + kind_threats(board, color, Piece::Queen, king_position)
        + kind_threats(board, color, Piece::Knight, king_position)
        + king_targets(king_square(board, color))
}

/// How many of `color`'s pieces other than the king attack `king_position`.
pub open spec fn spec_check_count(board: Chessboard, color: Color, king_position: int) -> int {
    kind_checks(board, color, Piece::Pawn, king_position)
        + kind_checks(board, color, Piece::Rook, king_position)
        + kind_checks(board, color, Piece::Bishop, king_position)
        + kind_checks(board, color, Piece::Queen, king_position)
        + kind_checks(board, color, Piece::Knight, king_position)
}

/// The squares attacked by a `kind` piece of `color` on `position`.
fn threats_of(board: &Chessboard, color: Color, kind: Piece, king_position: usize, position: usize) -> (r: Bitboard)
    requires
        position < 64,
        king_position < 64,
    ensures
        r@ == spec_threats_of(*board, color, kind, king_position as int, position as int),
{
    match kind {
        Piece::Pawn => get_fields_threatened_by_pawn(position, color),
        Piece::Rook => get_fields_threatened_by_rook(board, position, king_position),
        Piece::Bishop => get_fields_threatened_by_bishop(board, position, king_position),
        Piece::Queen => get_fields_threatened_by_queen(board, position, king_position),
        Piece::Knight => get_fields_threatened_by_knight(position),
        Piece::King => get_fields_threatened_by_king(position),
    }
}

/// Adds the squares attacked by `color`'s pieces of `kind` to `moves` and counts those that
/// attack `king_position` in `count_of_checks`.
fn add_threats_of_kind(
    board: &Chessboard,
    color: Color,
    kind: Piece,
    king_position: usize,
    moves: &mut Bitboard,
    count_of_checks: &mut u8,
)
    requires
        king_position < 64,
        *old(count_of_checks) + kind_checks(*board, color, kind, king_position as int) <= 255,
    ensures
        final(moves)@ == old(moves)@ + kind_threats(*board, color, kind, king_position as int),
        *final(count_of_checks) == *old(count_of_checks) + kind_checks(*board, color, kind, king_position as int),
{
    let positions = board.get_pieces(color, kind).get_used_fields();
    let ghost squares = positions@;
    let ghost start_moves = moves@;
    let ghost start_count = *count_of_checks as int;
    let mut i: usize = 0;
    while i < positions.len()
        invariant
            i <= positions.len(),
            king_position < 64,
            positions@ == squares,
            squares == fields_of(piece_bits(*board, color, kind)),
            forall|k: int| 0 <= k < positions.len() ==> positions@[k] < 64,
            start_count + checks_over(*board, color, kind, king_position as int, squares) <= 255,
            moves@ == start_moves + threats_over(*board, color, kind, king_position as int, squares.take(i as int)),
            *count_of_checks == start_count + checks_over(*board, color, kind, king_position as int, squares.take(i as int)),
        decreases positions.len() - i,
    {
        let position = positions[i];
        let threats = threats_of(board, color, kind, king_position, position);
        proof {
            lemma_bits_or(moves.board, threats.board);
            assert(squares.take(i + 1).drop_last() =~= squares.take(i as int));
            lemma_checks_over_prefix(*board, color, kind, king_position as int, squares, i + 1);
        }
        moves.board = moves.board | threats.board;
        if threats.field_is_used(king_position) {
            *count_of_checks = *count_of_checks + 1;
        }
        assert(moves@ =~= start_moves + threats_over(*board, color, kind, king_position as int, squares.take(i + 1)));
        i = i + 1;
    }
    assert(squares.take(positions.len() as int) =~= squares);
}

/// Every square `color` attacks (sliding pieces looking through the other king on
/// `king_position`), and how many of its pieces other than the king attack that king.
pub fn get_all_threatened_fields(board: &Chessboard, color: Color, king_position: usize) -> (r: (Bitboard, u8))
    requires
        king_position < 64,
        king_square(*board, color) < 64,
        spec_check_count(*board, color, king_position as int) <= 255,
    ensures
        r.0@ == spec_threatened_fields(*board, color, king_position as int),
        r.1 == spec_check_count(*board, color, king_position as int),
{
    let mut moves = Bitboard::new();
    let mut count_of_checks: u8 = 0;
    proof {
        crate::board::bitboard::lemma_bits_zero(moves.board);
        lemma_checks_over_nonneg(*board, color, Piece::Pawn, king_position as int, fields_of(piece_bits(*board, color, Piece::Pawn)));
        lemma_checks_over_nonneg(*board, color, Piece::Rook, king_position as int, fields_of(piece_bits(*board, color, Piece::Rook)));
        lemma_checks_over_nonneg(*board, color, Piece::Bishop, king_position as int, fields_of(piece_bits(*board, color, Piece::Bishop)));
        lemma_checks_over_nonneg(*board, color, Piece::Queen, king_position as int, fields_of(piece_bits(*board, color, Piece::Queen)));
        lemma_checks_over_nonneg(*board, color, Piece::Knight, king_position as int, fields_of(piece_bits(*board, color, Piece::Knight)));
    }
    add_threats_of_kind(board, color, Piece::Pawn, king_position, &mut moves, &mut count_of_checks);
    add_threats_of_kind(board, color, Piece::Rook, king_position, &mut moves, &mut count_of_checks);
    add_threats_of_kind(board, color, Piece::Bishop, king_position, &mut moves, &mut count_of_checks);
    add_threats_of_kind(board, color, Piece::Queen, king_position, &mut moves, &mut count_of_checks);
    add_threats_of_kind(board, color, Piece::Knight, king_position, &mut moves, &mut count_of_checks);
    let own_king = board.get_pieces(color, Piece::King).get_first_field();
    let king_threats = get_fields_threatened_by_king(own_king);
    proof {
        lemma_bits_or(moves.board, king_threats.board);
    }
    moves.board = moves.board | king_threats.board;
    assert(moves@ =~= spec_threatened_fields(*board, color, king_position as int));
    (moves, count_of_checks)
}

/// Which moves of a piece are gathered: captures (with pawn promotions), quiet moves, or moves
/// onto the squares that stop a check.
pub enum Phase {
    Takes,
    Quiet,
    PreventCheck,
}

/// Knight moves from `position` onto the squares of `targets`.
pub open spec fn knight_moves_onto(position: usize, targets: Set<int>) -> Seq<PossibleMove> {
    moves_from(position, set_fields(knight_targets(position as int).intersect(targets)))
}

/// The moves of one `kind` piece of `color` on `position` in `phase`.
pub open spec fn spec_piece_moves(board: Chessboard, color: Color, kind: Piece, phase: Phase, prevent_check_fields: Bitboard, position: usize) -> Seq<PossibleMove> {
    match phase {
        Phase::Takes => match kind {
            Piece::Pawn => spec_pawn_takes_and_promotion(board, position, color),
            Piece::Rook => spec_rook_takes(board, position),
            Piece::Bishop => spec_bishop_takes(board, position),
            Piece::Queen => spec_rook_takes(board, position) + spec_bishop_takes(board, position),
            Piece::Knight => knight_moves_onto(position, bits(opponents_bits(board))),
            Piece::King => Seq::empty(),
        },
        Phase::Quiet => match kind {
            Piece::Pawn => spec_pawn_moves(board, position, color),
            Piece::Rook => spec_rook_moves(board, position),
            Piece::Bishop => spec_bishop_moves(board, position),
            Piece::Queen => spec_bishop_moves(board, position) + spec_rook_moves(board, position),
            Piece::Knight => moves_from(position, set_fields(knight_targets(position as int).difference(bits(board.positions.board)))),
            Piece::King => Seq::empty(),
        },
        Phase::PreventCheck => match kind {
            Piece::Pawn => spec_pawn_prevent_check(board, position, color, prevent_check_fields),
            Piece::Rook => spec_rook_prevent(board, position, prevent_check_fields),
            Piece::Bishop => spec_bishop_prevent(board, position, prevent_check_fields),
            Piece::Queen => spec_rook_prevent(board, position, prevent_check_fields)
                + spec_bishop_prevent(board, position, prevent_check_fields),
            Piece::Knight => knight_moves_onto(position, prevent_check_fields@),
            Piece::King => Seq::empty(),
        },
    }
}

/// The moves of the pieces on `squares`, piece after piece.
pub open spec fn moves_over(board: Chessboard, color: Color, kind: Piece, phase: Phase, prevent_check_fields: Bitboard, squares: Seq<usize>) -> Seq<PossibleMove>
    decreases squares.len(),
{
    if squares.len() == 0 {
        Seq::empty()
    } else {
        moves_over(board, color, kind, phase, prevent_check_fields, squares.drop_last())
            + spec_piece_moves(board, color, kind, phase, prevent_check_fields, squares.last())
    }
}

/// The moves of all of `color`'s pieces of `kind` in `phase`, in ascending order of their squares.
pub open spec fn kind_moves(board: Chessboard, color: Color, kind: Piece, phase: Phase, prevent_check_fields: Bitboard) -> Seq<PossibleMove> {
    moves_over(board, color, kind, phase, prevent_check_fields, fields_of(piece_bits(board, color, kind)))
}

/// No pawn of `color` stands on the far rank it moves toward.
pub open spec fn pawns_can_step(board: Chessboard, color: Color) -> bool {
    forall|s: int| #[trigger] bits(piece_bits(board, color, Piece::Pawn)).contains(s) ==> pawn_can_step(s, color)
}

fn add_piece_moves(
    board: &Chessboard,
    color: Color,
    kind: Piece,
    phase: &Phase,
    prevent_check_fields: Bitboard,
    position: usize,
    moves: &mut Vec<PossibleMove>,
)
    requires
        position < 64,
        kind == Piece::Pawn ==> pawn_can_step(position as int, color),
    ensures
        final(moves)@ == old(moves)@ + spec_piece_moves(*board, color, kind, *phase, prevent_check_fields, position),
{
    let ghost start = moves@;
    match phase {
        Phase::Takes => match kind {
            Piece::Pawn => get_possible_pawn_takes_and_promotion(board, position, color, moves),
            Piece::Rook => get_possible_rook_takes(board, position, moves),
            Piece::Bishop => get_possible_bishop_takes(board, position, moves),
            Piece::Queen => get_possible_queen_takes(board, position, moves),
            Piece::Knight => get_possible_knight_takes(board, position, moves),
            Piece::King => {},
        },
        Phase::Quiet => match kind {
            Piece::Pawn => get_possible_pawn_moves(board, position, color, moves),
            Piece::Rook => get_possible_rook_moves(board, position, moves),
            Piece::Bishop => get_possible_bishop_moves(board, position, moves),
            Piece::Queen => get_possible_queen_moves(board, position, moves),
            Piece::Knight => get_possible_knight_moves(board, position, moves),
            Piece::King => {},
        },
        Phase::PreventCheck => match kind {
            Piece::Pawn => get_possible_pawn_moves_to_prevent_check(board, position, color, prevent_check_fields, moves),
            Piece::Rook => get_possible_rook_moves_to_prevent_check(board, position, prevent_check_fields, moves),
            Piece::Bishop => get_possible_bishop_moves_to_prevent_check(board, position, prevent_check_fields, moves),
            Piece::Queen => get_possible_queen_moves_to_prevent_check(board, position, prevent_check_fields, moves),
            Piece::Knight => get_possible_knight_moves_to_prevent_check(position, prevent_check_fields, moves),
            Piece::King => {},
        },
    }
    assert(moves@ =~= start + spec_piece_moves(*board, color, kind, *phase, prevent_check_fields, position));
}

/// Appends the moves of all of `color`'s pieces of `kind` in `phase`.
fn add_kind_moves(
    board: &Chessboard,
    color: Color,
    kind: Piece,
    phase: &Phase,
    prevent_check_fields: Bitboard,
    moves: &mut Vec<PossibleMove>,
)
    requires
        kind == Piece::Pawn ==> pawns_can_step(*board, color),
    ensures
        final(moves)@ == old(moves)@ + kind_moves(*board, color, kind, *phase, prevent_check_fields),
{
    let positions = board.get_pieces(color, kind).get_used_fields();
    let ghost squares = positions@;
    let ghost start = moves@;
    let mut i: usize = 0;
    while i < positions.len()
        invariant
            i <= positions.len(),
            positions@ == squares,
            squares == fields_of(piece_bits(*board, color, kind)),
            forall|k: int| 0 <= k < positions.len() ==> positions@[k] < 64
                && bits(piece_bits(*board, color, kind)).contains(positions@[k] as int),
            kind == Piece::Pawn ==> pawns_can_step(*board, color),
            moves@ == start + moves_over(*board, color, kind, *phase, prevent_check_fields, squares.take(i as int)),
        decreases positions.len() - i,
    {
        let position = positions[i];
        assert(bits(piece_bits(*board, color, kind)).contains(position as int));
        add_piece_moves(board, color, kind, phase, prevent_check_fields, position, moves);
        proof {
            assert(squares.take(i + 1).drop_last() =~= squares.take(i as int));
            assert(squares.take(i + 1).last() == position);
        }
        assert(moves@ =~= start + moves_over(*board, color, kind, *phase, prevent_check_fields, squares.take(i + 1)));
        i = i + 1;
    }
    assert(squares.take(positions.len() as int) =~= squares);
}

/// The king's steps out of check from `king_position`.
pub open spec fn spec_king_moves_in_check(board: Chessboard, king_position: usize, opponent_moves: Bitboard) -> Seq<PossibleMove> {
    if king_position < 64 {
        moves_from(
            king_position,
            set_fields(king_targets(king_position as int).difference(
                bits(used_bits(board, board.current_move)),
            ).difference(opponent_moves@)),
        )
    } else {
        Seq::empty()
    }
}

/// The king's captures from `king_position` of pieces the opponent does not guard.
pub open spec fn spec_king_takes(board: Chessboard, king_position: usize, opponent_moves: Bitboard) -> Seq<PossibleMove> {
    if king_position < 64 {
        moves_from(
            king_position,
            set_fields(king_targets(king_position as int).difference(opponent_moves@).intersect(
                bits(opponents_bits(board)),
            )),
        )
    } else {
        Seq::empty()
    }
}

/// The moves of `color` in check: bishops, queens, knights and rooks onto the squares that stop
/// the check, the king's steps out of check, then the pawns' moves onto those squares.
pub open spec fn spec_prevent_check_moves(board: Chessboard, color: Color, opponent_moves: Bitboard) -> Seq<PossibleMove> {
    let king_position = king_square(board, color);
    let prevent = bitboard_of(spec_fields_to_prevent_check(board, king_position, opponent_moves.board));
    kind_moves(board, color, Piece::Bishop, Phase::PreventCheck, prevent)
        + kind_moves(board, color, Piece::Queen, Phase::PreventCheck, prevent)
        + kind_moves(board, color, Piece::Knight, Phase::PreventCheck, prevent)
        + kind_moves(board, color, Piece::Rook, Phase::PreventCheck, prevent)
        + spec_king_moves_in_check(board, king_position as usize, opponent_moves)
        + kind_moves(board, color, Piece::Pawn, Phase::PreventCheck, prevent)
}

/// The moves that answer a check: those onto the squares that stop it, and the king's steps.
pub fn get_all_prevent_check_moves(board: &Chessboard, color: Color, opponent_moves: Bitboard) -> (moves: Vec<PossibleMove>)
    requires
        king_square(*board, color) < 64,
        pawns_can_step(*board, color),
        color == board.current_move,
    ensures
        moves@ == spec_prevent_check_moves(*board, color, opponent_moves),
{
    let king_position = board.get_pieces(color, Piece::King).get_first_field();
    let prevent_check_fields = get_fields_to_prevent_check(board, king_position, opponent_moves);
    proof {
        lemma_bitboard_of(prevent_check_fields);
    }
    let mut moves: Vec<PossibleMove> = Vec::new();
    add_kind_moves(board, color, Piece::Bishop, &Phase::PreventCheck, prevent_check_fields, &mut moves);
    add_kind_moves(board, color, Piece::Queen, &Phase::PreventCheck, prevent_check_fields, &mut moves);
    add_kind_moves(board, color, Piece::Knight, &Phase::PreventCheck, prevent_check_fields, &mut moves);
    add_kind_moves(board, color, Piece::Rook, &Phase::PreventCheck, prevent_check_fields, &mut moves);
    get_all_king_moves_in_check(board, king_position, opponent_moves, &mut moves);
    add_kind_moves(board, color, Piece::Pawn, &Phase::PreventCheck, prevent_check_fields, &mut moves);
    assert(moves@ =~= spec_prevent_check_moves(*board, color, opponent_moves));
    moves
}

/// The first index from `i` on at which `moves` holds `m`, if any.
pub open spec fn first_index_from(moves: Seq<PossibleMove>, m: PossibleMove, i: int) -> Option<int>
    decreases moves.len() - i,
{
    if i < 0 || i >= moves.len() {
        None
    } else if moves[i] == m {
        Some(i)
    } else {
        first_index_from(moves, m, i + 1)
    }
}

/// `moves` with the previous best move put first: its first occurrence (if any) is taken out,
/// and it is inserted at the front in any case.
pub open spec fn spec_with_best_move_first(moves: Seq<PossibleMove>, prev_best_move: Option<PossibleMove>) -> Seq<PossibleMove> {
    match prev_best_move {
        None => moves,
        Some(m) => seq![m] + match first_index_from(moves, m, 0) {
            Some(i) => moves.remove(i),
            None => moves,
        },
    }
}

/// Puts the best move found for this position before at the front of `moves`.
pub fn add_prev_best_move_as_first_move(moves: &mut Vec<PossibleMove>, prev_best_move: Option<PossibleMove>)
    ensures
        final(moves)@ == spec_with_best_move_first(old(moves)@, prev_best_move),
{
    if prev_best_move.is_none() {
        return;
    }
    let best = prev_best_move.unwrap();
    let mut i: usize = 0;
    let mut found: Option<usize> = None;
    while i < moves.len()
        invariant_except_break
            found is None,
        invariant
            i <= moves.len(),
            moves@ == old(moves)@,
            first_index_from(moves@, best, 0) == first_index_from(moves@, best, i as int),
        ensures
            moves@ == old(moves)@,
            match found {
                Some(p) => p < moves.len() && first_index_from(moves@, best, 0) == Some(p as int),
                None => first_index_from(moves@, best, 0) is None,
            },
        decreases moves.len() - i,
    {
        let single = moves[i];
        if single.from == best.from && single.to == best.to && single.promoted_to == best.promoted_to {
            found = Some(i);
            break;
        }
        i = i + 1;
    }
    if let Some(pos) = found {
        moves.remove(pos);
    }
    moves.insert(0, best);
    assert(moves@ =~= spec_with_best_move_first(old(moves)@, prev_best_move));
}

/// The pseudo-legal moves of `color`: in double check only the king's steps; in check the
/// moves that answer it; otherwise every capture (pawns, rooks, bishops, queens, knights, then
/// the king), followed, when all moves are asked for, by the quiet moves (bishops, queens, rooks,
/// knights, the king, then pawns), with the previous best move put first.
pub open spec fn spec_all_possible_moves(
    board: Chessboard,
    color: Color,
    opponent_moves: Bitboard,
    is_in_check: bool,
    is_in_double_check: bool,
    get_all_moves: bool,
    prev_best_move: Option<PossibleMove>,
) -> Seq<PossibleMove> {
    let king_position = king_square(board, color) as usize;
    let none = Bitboard { board: 0 };
    if is_in_double_check {
        spec_king_moves_in_check(board, king_position, opponent_moves)
    } else if is_in_check {
        spec_prevent_check_moves(board, color, opponent_moves)
    } else {
        let takes = kind_moves(board, color, Piece::Pawn, Phase::Takes, none)
            + kind_moves(board, color, Piece::Rook, Phase::Takes, none)
            + kind_moves(board, color, Piece::Bishop, Phase::Takes, none)
            + kind_moves(board, color, Piece::Queen, Phase::Takes, none)
            + kind_moves(board, color, Piece::Knight, Phase::Takes, none)
            + spec_king_takes(board, king_position, opponent_moves);
        if !get_all_moves {
            spec_with_best_move_first(takes, prev_best_move)
        } else {
            spec_with_best_move_first(
                takes + kind_moves(board, color, Piece::Bishop, Phase::Quiet, none)
                    + kind_moves(board, color, Piece::Queen, Phase::Quiet, none)
                    + kind_moves(board, color, Piece::Rook, Phase::Quiet, none)
                    + kind_moves(board, color, Piece::Knight, Phase::Quiet, none)
                    + spec_king_moves(board, king_position, color, opponent_moves)
                    + kind_moves(board, color, Piece::Pawn, Phase::Quiet, none),
                prev_best_move,
            )
        }
    }
}

/// All pseudo-legal moves of `color` (the side to move), see `spec_all_possible_moves`.
pub fn get_all_possible_moves(
    board: &Chessboard,
    color: Color,
    opponent_moves: Bitboard,
    is_in_check: bool,
    is_in_double_check: bool,
    get_all_moves: bool,
    prev_best_move: Option<PossibleMove>,
) -> (moves: Vec<PossibleMove>)
    requires
        king_square(*board, color) < 64,
        pawns_can_step(*board, color),
        color == board.current_move,
    ensures
        moves@ == spec_all_possible_moves(
            *board,
            color,
            opponent_moves,
            is_in_check,
            is_in_double_check,
            get_all_moves,
            prev_best_move,
        ),
{
    let mut moves: Vec<PossibleMove> = Vec::new();
    let king_position = board.get_pieces(color, Piece::King).get_first_field();
    // if we are in double check only moving the king can save us
    if is_in_double_check {
        get_all_king_moves_in_check(board, king_position, opponent_moves, &mut moves);
        assert(moves@ =~= spec_king_moves_in_check(*board, king_position, opponent_moves));
        return moves;
    }
    if is_in_check {
        return get_all_prevent_check_moves(board, color, opponent_moves);
    }
    let none = Bitboard::new();
    // all captures first
    add_kind_moves(board, color, Piece::Pawn, &Phase::Takes, none, &mut moves);
    add_kind_moves(board, color, Piece::Rook, &Phase::Takes, none, &mut moves);
    add_kind_moves(board, color, Piece::Bishop, &Phase::Takes, none, &mut moves);
    add_kind_moves(board, color, Piece::Queen, &Phase::Takes, none, &mut moves);
    add_kind_moves(board, color, Piece::Knight, &Phase::Takes, none, &mut moves);
    get_possible_king_takes(board, king_position, opponent_moves, &mut moves);
    // we only want some moves which we think should be calculated
    if !get_all_moves {
        add_prev_best_move_as_first_move(&mut moves, prev_best_move);
        assert(moves@ =~= spec_all_possible_moves(*board, color, opponent_moves, is_in_check, is_in_double_check, get_all_moves, prev_best_move));
        return moves;
    }
    // the quiet moves at the end
    add_kind_moves(board, color, Piece::Bishop, &Phase::Quiet, none, &mut moves);
    add_kind_moves(board, color, Piece::Queen, &Phase::Quiet, none, &mut moves);
    add_kind_moves(board, color, Piece::Rook, &Phase::Quiet, none, &mut moves);
    add_kind_moves(board, color, Piece::Knight, &Phase::Quiet, none, &mut moves);
    get_possible_king_moves(board, king_position, color, opponent_moves, &mut moves);
    add_kind_moves(board, color, Piece::Pawn, &Phase::Quiet, none, &mut moves);
    add_prev_best_move_as_first_move(&mut moves, prev_best_move);
    assert(moves@ =~= spec_all_possible_moves(*board, color, opponent_moves, is_in_check, is_in_double_check, get_all_moves, prev_best_move));
    moves
}

/// A move survives the pins when its piece is not pinned, or stays on the ray of its pin.
pub open spec fn keeps_pin(pins: Map<usize, Seq<usize>>, m: PossibleMove) -> bool {
    !pins.contains_key(m.from) || pins[m.from].contains(m.to)
}

/// The moves of `moves` that survive the pins, in order.
pub open spec fn moves_keeping_pins(moves: Seq<PossibleMove>, pins: Map<usize, Seq<usize>>) -> Seq<PossibleMove>
    decreases moves.len(),
{
    if moves.len() == 0 {
        Seq::empty()
    } else {
        moves_keeping_pins(moves.drop_last(), pins) + if keeps_pin(pins, moves.last()) {
            seq![moves.last()]
        } else {
            Seq::empty()
        }
    }
}

proof fn lemma_no_pins_keep_all(moves: Seq<PossibleMove>, pins: Map<usize, Seq<usize>>)
    requires
        pins.dom() =~= Set::<usize>::empty(),
    ensures
        moves_keeping_pins(moves, pins) == moves,
    decreases moves.len(),
{
    if moves.len() > 0 {
        lemma_no_pins_keep_all(moves.drop_last(), pins);
        assert(moves.drop_last() + seq![moves.last()] =~= moves);
    }
}

/// Drops the moves of pinned pieces that leave the line of their pin (a pinned rook may still
/// take the rook that pins it).
pub fn get_not_pinned_pieces(board: &Chessboard, king_position: &usize, moves: Vec<PossibleMove>) -> (r: Vec<PossibleMove>)
    ensures
        r@ == moves_keeping_pins(moves@, spec_pinned_pieces(*board, *king_position as int)),
{
    let pinned_pieces = get_pinned_pieces_and_possible_moves(board, king_position);
    let ghost pins = spec_pinned_pieces(*board, *king_position as int);
    if pinned_pieces.is_empty() {
        proof {
            assert(pinned_pieces@.dom() =~= Set::<usize>::empty());
            assert(pins.dom() =~= Set::<usize>::empty());
            lemma_no_pins_keep_all(moves@, pins);
        }
        return moves;
    }
    let mut kept: Vec<PossibleMove> = Vec::new();
    let mut i: usize = 0;
    while i < moves.len()
        invariant
            i <= moves.len(),
            pins_match(pinned_pieces@, pins),
            kept@ == moves_keeping_pins(moves@.take(i as int), pins),
        decreases moves.len() - i,
    {
        let mov = moves[i];
        let keep = if !pinned_pieces.contains_key(&mov.from) {
            true
        } else {
            let line = pinned_pieces.get(&mov.from).unwrap();
            vec_contains(line, mov.to)
        };
        if keep {
            kept.push(mov);
        }
        proof {
            assert(moves@.take(i + 1).drop_last() =~= moves@.take(i as int));
            assert(moves@.take(i + 1).last() == mov);
        }
        assert(kept@ =~= moves_keeping_pins(moves@.take(i + 1), pins));
        i = i + 1;
    }
    assert(moves@.take(moves.len() as int) =~= moves@);
    kept
}

/// What move generation needs of a position: both kings on the board, no pawn of the side to
/// move on the far rank, and at most 255 pieces giving check.
pub open spec fn moves_can_be_generated(board: Chessboard) -> bool {
    let color = board.current_move;
    &&& king_square(board, color) < 64
    &&& king_square(board, color.other()) < 64
    &&& pawns_can_step(board, color)
    &&& spec_check_count(board, color.other(), king_square(board, color)) <= 255
}

/// The moves of the side to move: its pseudo-legal moves with pinned pieces kept on the lines of
/// their pins (the previous best move, if given, put first), and whether its king is in check.
pub open spec fn spec_valid_moves(board: Chessboard, calculate_all_moves: bool, prev_best_move: Option<PossibleMove>) -> (Seq<PossibleMove>, bool) {
    let color = board.current_move;
    let king_position = king_square(board, color);
    let threatened = spec_threatened_fields(board, color.other(), king_position);
    let is_in_check = threatened.contains(king_position);
    let is_in_double_check = is_in_check && spec_check_count(board, color.other(), king_position) > 1;
    let moves = spec_all_possible_moves(
        board,
        color,
        bitboard_of(threatened),
        is_in_check,
        is_in_double_check,
        calculate_all_moves,
        prev_best_move,
    );
    (moves_keeping_pins(moves, spec_pinned_pieces(board, king_position)), is_in_check)
}

/// The moves of the side to move (pseudo-legal moves, pieces kept on the lines of their pins),
/// with `prev_best_move` (a move found best for this position before) put first, and whether the
/// side to move is in check. Without
/// `calculate_all_moves` only the captures are gathered.
pub fn get_valid_moves_with_best_move_first(
    board: &Chessboard,
    calculate_all_moves: bool,
    prev_best_move: Option<PossibleMove>,
) -> (r: (Vec<PossibleMove>, bool))
    requires
        moves_can_be_generated(*board),
    ensures
        r.0@ == spec_valid_moves(*board, calculate_all_moves, prev_best_move).0,
        r.1 == spec_valid_moves(*board, calculate_all_moves, prev_best_move).1,
{
    let king_position = board.get_pieces(board.current_move, Piece::King).get_first_field();
    // the opponent's attacks look through our king, so that it cannot step back along a line
    let (opponent_moves, count_of_checks) = get_all_threatened_fields(board, board.get_opponent_color(), king_position);
    proof {
        lemma_bitboard_of(opponent_moves);
    }
    // the king stands on an attacked square: check
    let is_in_check = opponent_moves.field_is_used(king_position);
    let is_in_double_check = is_in_check && count_of_checks > 1;
    let moves = get_all_possible_moves(
        board,
        board.current_move,
        opponent_moves,
        is_in_check,
        is_in_double_check,
        calculate_all_moves,
        prev_best_move,
    );
    let not_pinned_moves = get_not_pinned_pieces(board, &king_position, moves);
    (not_pinned_moves, is_in_check)
}

/// The move found best before for the position whose key is `key`, if the table holds one.
pub open spec fn best_move_of(best_moves: Map<u64, PossibleMove>, key: u64) -> Option<PossibleMove> {
    if best_moves.contains_key(key) {
        Some(best_moves[key])
    } else {
        None
    }
}

/// The move found best before for `board`'s position, looked up by the position's key.
pub fn get_prev_best_move(board: &Chessboard, best_moves: &HashMap<u64, PossibleMove>) -> (r: Option<PossibleMove>)
    ensures
        r == best_move_of(best_moves@, board.zobrist_key),
{
    broadcast use vstd::std_specs::hash::group_hash_axioms;

    match best_moves.get(&board.zobrist_key) {
        Some(m) => Some(*m),
        None => None,
    }
}

/// The moves of the side to move (pseudo-legal moves, pieces kept on the lines of their pins),
/// with the move that `best_moves` holds as best for this position put first, and whether the
/// side to move is in check. Without `calculate_all_moves` only the captures are gathered.
pub fn get_valid_moves_in_position(
    board: &Chessboard,
    calculate_all_moves: bool,
    best_moves: &HashMap<u64, PossibleMove>,
) -> (r: (Vec<PossibleMove>, bool))
    requires
        moves_can_be_generated(*board),
    ensures
        r.0@ == spec_valid_moves(*board, calculate_all_moves, best_move_of(best_moves@, board.zobrist_key)).0,
        r.1 == spec_valid_moves(*board, calculate_all_moves, best_move_of(best_moves@, board.zobrist_key)).1,
{
    let prev_best_move = get_prev_best_move(board, best_moves);
    get_valid_moves_with_best_move_first(board, calculate_all_moves, prev_best_move)
}

proof fn lemma_first_index(moves: Seq<PossibleMove>, m: PossibleMove, i: int)
    requires
        0 <= i,
    ensures
        first_index_from(moves, m, i) matches Some(k) ==> i <= k < moves.len() && moves[k] == m,
        first_index_from(moves, m, i) is None ==> forall|k: int| i <= k < moves.len() ==> moves[k] != m,
    decreases moves.len() - i,
{
    if i < moves.len() && moves[i] != m {
        lemma_first_index(moves, m, i + 1);
    }
}

/// Putting the previous best move first keeps the moves: the best move leads, and every other
/// move is kept, the best move's old place (if it had one) dropped.
pub proof fn law_best_move_first_keeps_the_moves(moves: Seq<PossibleMove>, m: PossibleMove)
    ensures
        spec_with_best_move_first(moves, Some(m))[0] == m,
        spec_with_best_move_first(moves, Some(m)).len() == moves.len() + if moves.contains(m) { 0int } else { 1int },
        forall|x: PossibleMove| moves.contains(x) ==> spec_with_best_move_first(moves, Some(m)).contains(x),
        forall|x: PossibleMove| spec_with_best_move_first(moves, Some(m)).contains(x) ==> x == m || moves.contains(x),
{
    lemma_first_index(moves, m, 0);
    let r = spec_with_best_move_first(moves, Some(m));
    assert(r[0] == m);
    match first_index_from(moves, m, 0) {
        Some(i) => {
            let rest = moves.remove(i);
            assert(r == seq![m] + rest);
            assert(moves.contains(m));
            assert forall|x: PossibleMove| moves.contains(x) implies r.contains(x) by {
                let k = choose|k: int| 0 <= k < moves.len() && moves[k] == x;
                if k < i {
                    assert(r[k + 1] == x);
                } else if k > i {
                    assert(r[k] == x);
                } else {
                    assert(r[0] == x);
                }
            }
            assert forall|x: PossibleMove| r.contains(x) implies x == m || moves.contains(x) by {
                let k = choose|k: int| 0 <= k < r.len() && r[k] == x;
                if k > 0 {
                    if k - 1 < i {
                        assert(moves[k - 1] == x);
                    } else {
                        assert(moves[k] == x);
                    }
                }
            }
        },
        None => {
            assert(r == seq![m] + moves);
            assert(!moves.contains(m));
            assert forall|x: PossibleMove| moves.contains(x) implies r.contains(x) by {
                let k = choose|k: int| 0 <= k < moves.len() && moves[k] == x;
                assert(r[k + 1] == x);
            }
            assert forall|x: PossibleMove| r.contains(x) implies x == m || moves.contains(x) by {
                let k = choose|k: int| 0 <= k < r.len() && r[k] == x;
                if k > 0 {
                    assert(moves[k - 1] == x);
                }
            }
        },
    }
}

/// The moves that survive the pins are exactly those of the list that keep their pin, in order.
pub proof fn law_kept_moves_keep_their_pins(moves: Seq<PossibleMove>, pins: Map<usize, Seq<usize>>)
    ensures
        forall|x: PossibleMove| moves_keeping_pins(moves, pins).contains(x) <==> (moves.contains(x) && keeps_pin(pins, x)),
        moves_keeping_pins(moves, pins).len() <= moves.len(),
    decreases moves.len(),
{
    if moves.len() > 0 {
        law_kept_moves_keep_their_pins(moves.drop_last(), pins);
        let prev = moves_keeping_pins(moves.drop_last(), pins);
        let last = moves.last();
        let r = moves_keeping_pins(moves, pins);
        assert forall|x: PossibleMove| r.contains(x) <==> (moves.contains(x) && keeps_pin(pins, x)) by {
            if r.contains(x) {
                let k = choose|k: int| 0 <= k < r.len() && r[k] == x;
                if k < prev.len() {
                    assert(r[k] == prev[k]);
                    assert(prev.contains(x));
                    assert(moves.drop_last().contains(x));
                    let j = choose|j: int| 0 <= j < moves.drop_last().len() && moves.drop_last()[j] == x;
                    assert(moves[j] == x);
                } else {
                    assert(x == last);
                    assert(moves[moves.len() - 1] == x);
                }
            }
            if moves.contains(x) && keeps_pin(pins, x) {
                let j = choose|j: int| 0 <= j < moves.len() && moves[j] == x;
                if j < moves.len() - 1 {
                    assert(moves.drop_last()[j] == x);
                    let k = choose|k: int| 0 <= k < prev.len() && prev[k] == x;
                    assert(r[k] == x);
                } else {
                    assert(r[prev.len() as int] == x);
                }
            }
        }
    }
}

/// How many of `color`'s pieces of `kind` attack `king_position`.
fn count_checks_of_kind(board: &Chessboard, color: Color, kind: Piece, king_position: usize) -> (r: u64)
    requires
        king_position < 64,
    ensures
        r == kind_checks(*board, color, kind, king_position as int),
        r <= 64,
{
    let positions = board.get_pieces(color, kind).get_used_fields();
    let ghost squares = positions@;
    let mut count: u64 = 0;
    let mut i: usize = 0;
    while i < positions.len()
        invariant
            i <= positions.len(),
            positions.len() <= 64,
            king_position < 64,
            positions@ == squares,
            squares == fields_of(piece_bits(*board, color, kind)),
            forall|k: int| 0 <= k < positions.len() ==> positions@[k] < 64,
            count == checks_over(*board, color, kind, king_position as int, squares.take(i as int)),
            count <= i,
        decreases positions.len() - i,
    {
        let threats = threats_of(board, color, kind, king_position, positions[i]);
        proof {
            assert(squares.take(i + 1).drop_last() =~= squares.take(i as int));
        }
        if threats.field_is_used(king_position) {
            count = count + 1;
        }
        i = i + 1;
    }
    assert(squares.take(positions.len() as int) =~= squares);
    count
}

/// Whether no pawn of `color` stands on the far rank it moves toward.
fn pawns_may_step(board: &Chessboard, color: Color) -> (r: bool)
    ensures
        r == pawns_can_step(*board, color),
{
    let pawns = board.get_pieces(color, Piece::Pawn);
    let positions = pawns.get_used_fields();
    proof {
        crate::board::bitboard::law_used_fields_ascending_and_complete(pawns.board);
    }
    let mut i: usize = 0;
    while i < positions.len()
        invariant
            i <= positions.len(),
            positions@ == fields_of(pawns.board),
            pawns.board == piece_bits(*board, color, Piece::Pawn),
            forall|k: int| 0 <= k < positions.len() ==> positions@[k] < 64 && pawns@.contains(positions@[k] as int),
            forall|k: int| 0 <= k < i ==> pawn_can_step(#[trigger] positions@[k] as int, color),
        decreases positions.len() - i,
    {
        let s = positions[i];
        let ok = match color {
            Color::White => s < 56,
            Color::Black => 8 <= s,
        };
        if !ok {
            assert(bits(piece_bits(*board, color, Piece::Pawn)).contains(s as int));
            return false;
        }
        i = i + 1;
    }
    assert forall|t: int| #[trigger] bits(piece_bits(*board, color, Piece::Pawn)).contains(t) implies pawn_can_step(t, color) by {
        assert(fields_of(pawns.board).contains(t as usize));
        let k = choose|k: int| 0 <= k < positions.len() && positions@[k] == t as usize;
        assert(pawn_can_step(positions@[k] as int, color));
    }
    true
}

/// Whether moves can be generated for the position (see `moves_can_be_generated`).
pub fn can_generate_moves(board: &Chessboard) -> (r: bool)
    ensures
        r == moves_can_be_generated(*board),
{
    let color = board.current_move;
    let opponent = board.get_opponent_color();
    let king_position = board.get_pieces(color, Piece::King).get_first_field();
    let opponent_king = board.get_pieces(opponent, Piece::King).get_first_field();
    if king_position >= 64 || opponent_king >= 64 {
        return false;
    }
    if !pawns_may_step(board, color) {
        return false;
    }
    let checks = count_checks_of_kind(board, opponent, Piece::Pawn, king_position)
        + count_checks_of_kind(board, opponent, Piece::Rook, king_position)
        + count_checks_of_kind(board, opponent, Piece::Bishop, king_position)
        + count_checks_of_kind(board, opponent, Piece::Queen, king_position)
        + count_checks_of_kind(board, opponent, Piece::Knight, king_position);
    checks <= 255
}

/// The king never moves onto a square that the opponent attacks: not with a step, not with a
/// capture, not when it steps out of check, and not when it castles.
pub proof fn law_king_never_moves_into_attack(
    board: Chessboard,
    king_position: usize,
    color: Color,
    opponent_moves: Bitboard,
)
    ensures
        forall|k: int| 0 <= k < spec_king_moves(board, king_position, color, opponent_moves).len()
            ==> !opponent_moves@.contains(#[trigger] spec_king_moves(board, king_position, color, opponent_moves)[k].to as int),
        forall|k: int| 0 <= k < spec_king_takes(board, king_position, opponent_moves).len()
            ==> !opponent_moves@.contains(#[trigger] spec_king_takes(board, king_position, opponent_moves)[k].to as int),
        forall|k: int| 0 <= k < spec_king_moves_in_check(board, king_position, opponent_moves).len()
            ==> !opponent_moves@.contains(#[trigger] spec_king_moves_in_check(board, king_position, opponent_moves)[k].to as int),
{
    let targets = king_targets(king_position as int);
    let steps = targets.difference(bits(board.positions.board)).difference(opponent_moves@);
    let takes = targets.difference(opponent_moves@).intersect(bits(opponents_bits(board)));
    let escapes = targets.difference(bits(used_bits(board, board.current_move))).difference(opponent_moves@);
    lemma_set_fields_members(steps, 64);
    lemma_set_fields_members(takes, 64);
    lemma_set_fields_members(escapes, 64);
    let moves = spec_king_moves(board, king_position, color, opponent_moves);
    assert forall|k: int| 0 <= k < moves.len() implies !opponent_moves@.contains(#[trigger] moves[k].to as int) by {
        if king_position < 64 {
            let step_moves = moves_from(king_position, set_fields(steps));
            if k < step_moves.len() {
                assert(moves[k] == step_moves[k]);
                assert(steps.contains(set_fields(steps)[k] as int));
            }
        }
    }
    let take_moves = spec_king_takes(board, king_position, opponent_moves);
    assert forall|k: int| 0 <= k < take_moves.len() implies !opponent_moves@.contains(#[trigger] take_moves[k].to as int) by {
        assert(takes.contains(set_fields(takes)[k] as int));
    }
    let escape_moves = spec_king_moves_in_check(board, king_position, opponent_moves);
    assert forall|k: int| 0 <= k < escape_moves.len() implies !opponent_moves@.contains(#[trigger] escape_moves[k].to as int) by {
        assert(escapes.contains(set_fields(escapes)[k] as int));
    }
}

} // verus!

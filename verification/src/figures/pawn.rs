use vstd::prelude::*;
use crate::board::bitboard::{
    Bitboard, bit, bits, first_field, set_fields, fields_of, lemma_bits_and,
};
use crate::board::board::{Chessboard, opponents_bits, piece_bits};
use crate::board::promotion::Promotion;
use crate::engine::engine::{PossibleMove, moves_from, push_moves_to_targets};
use crate::figures::color::Color;
use crate::figures::piece::Piece;
use crate::board::bitboard::lemma_set_fields_members;
use crate::helper::moves_by_field::{abs_diff, rank_of,
    pawn_threat_targets, pawn_takes_for_square, promotion_squares, get_moves_for_field,
    get_pawn_promotion_moves, ray, file_of,
};

verus! {

/// The pawn stands where it may step two squares.
pub open spec fn spec_can_move_two_fields(own_position: int, own_color: Color) -> bool {
    match own_color {
        Color::White => 7 <= own_position <= 15,
        Color::Black => 48 <= own_position <= 55,
    }
}

fn can_move_two_fields(own_position: usize, own_color: Color) -> (r: bool)
    ensures
        r == spec_can_move_two_fields(own_position as int, own_color),
{
    match own_color {
        Color::White => 7 <= own_position && own_position <= 15,
        Color::Black => 48 <= own_position && own_position <= 55,
    }
}

/// The square one step forward and one to the left, seen from `own_color`'s side.
pub open spec fn spec_take_left(one_step_forward: int, own_color: Color) -> int {
    match own_color {
        Color::White => one_step_forward - 1,
        Color::Black => one_step_forward + 1,
    }
}

/// The square one step forward and one to the right, seen from `own_color`'s side.
pub open spec fn spec_take_right(one_step_forward: int, own_color: Color) -> int {
    match own_color {
        Color::White => one_step_forward + 1,
        Color::Black => one_step_forward - 1,
    }
}

fn take_left_position(one_step_forward: &usize, own_color: Color) -> (r: usize)
    requires
        own_color == Color::White ==> *one_step_forward >= 1,
        own_color == Color::Black ==> *one_step_forward < usize::MAX,
    ensures
        r == spec_take_left(*one_step_forward as int, own_color),
{
    match own_color {
        Color::White => *one_step_forward - 1,
        Color::Black => *one_step_forward + 1,
    }
}

fn take_right_position(one_step_forward: &usize, own_color: Color) -> (r: usize)
    requires
        own_color == Color::White ==> *one_step_forward < usize::MAX,
        own_color == Color::Black ==> *one_step_forward >= 1,
    ensures
        r == spec_take_right(*one_step_forward as int, own_color),
{
    match own_color {
        Color::White => *one_step_forward + 1,
        Color::Black => *one_step_forward - 1,
    }
}

/// The square beside the pawn on its left, seen from `own_color`'s side.
pub open spec fn spec_en_passant_left(own_position: int, own_color: Color) -> int {
    match own_color {
        Color::White => own_position - 1,
        Color::Black => own_position + 1,
    }
}

/// The square to the right of the pawn, seen from `own_color`'s side.
pub open spec fn spec_en_passant_right(own_position: int, own_color: Color) -> int {
    match own_color {
        Color::White => own_position + 1,
        Color::Black => own_position - 1,
    }
}

fn en_passant_position_left(own_position: &usize, own_color: Color) -> (r: usize)
    requires
        own_color == Color::White ==> *own_position >= 1,
        own_color == Color::Black ==> *own_position < usize::MAX,
    ensures
        r == spec_en_passant_left(*own_position as int, own_color),
{
    match own_color {
        Color::White => *own_position - 1,
        Color::Black => *own_position + 1,
    }
}

fn en_passant_position_right(own_position: &usize, own_color: Color) -> (r: usize)
    requires
        own_color == Color::White ==> *own_position < usize::MAX,
        own_color == Color::Black ==> *own_position >= 1,
    ensures
        r == spec_en_passant_right(*own_position as int, own_color),
{
    match own_color {
        Color::White => *own_position + 1,
        Color::Black => *own_position - 1,
    }
}

/// The pawn is not on its left edge (seen from its side).
pub open spec fn spec_pawn_can_move_left(field: int, color: Color) -> bool {
    match color {
        Color::White => field % 8 != 0,
        Color::Black => field % 8 != 7,
    }
}

/// The pawn has a file to its right, seen from its side.
pub open spec fn spec_pawn_can_move_right(field: int, color: Color) -> bool {
    match color {
        Color::White => field % 8 != 7,
        Color::Black => field % 8 != 0,
    }
}

fn figure_can_move_left(field: usize, color: &Color) -> (r: bool)
    ensures
        r == spec_pawn_can_move_left(field as int, *color),
{
    match color {
        Color::White => field % 8 != 0,
        Color::Black => field % 8 != 7,
    }
}

fn figure_can_move_right(field: usize, color: &Color) -> (r: bool)
    ensures
        r == spec_pawn_can_move_right(field as int, *color),
{
    match color {
        Color::White => field % 8 != 7,
        Color::Black => field % 8 != 0,
    }
}

/// A pawn arriving on `field` promotes.
pub open spec fn spec_will_promote(field: int, color: Color) -> bool {
    match color {
        Color::White => field > 55,
        Color::Black => field < 8,
    }
}

fn figure_will_promote(field: usize, color: &Color) -> (r: bool)
    ensures
        r == spec_will_promote(field as int, *color),
{
    match color {
        Color::White => field > 55,
        Color::Black => field < 8,
    }
}

/// The square `movement` squares ahead of the pawn, seen from its side.
pub open spec fn spec_forward(own_position: int, own_color: Color, movement: int) -> int {
    match own_color {
        Color::Black => own_position - movement,
        Color::White => own_position + movement,
    }
}

fn calculate_forward_position(own_position: usize, own_color: Color, movement: usize) -> (r: usize)
    requires
        own_color == Color::Black ==> own_position >= movement,
        own_color == Color::White ==> own_position + movement <= usize::MAX,
    ensures
        r == spec_forward(own_position as int, own_color, movement as int),
{
    match own_color {
        Color::Black => own_position - movement,
        Color::White => own_position + movement,
    }
}

/// Going along `moves`, the first occupied square other than the two pawns involved in an
/// en passant capture does not hold an opponent rook or queen (there is no such square: true).
pub open spec fn spec_no_rook_behind(board: Chessboard, moves: Seq<usize>, en_passanted: int, own_position: int, k: int) -> bool
    decreases moves.len() - k,
{
    if k >= moves.len() || k < 0 {
        true
    } else {
        let single = moves[k] as int;
        if single != en_passanted && single != own_position && bit(board.positions.board, single) {
            !(bit(piece_bits(board, board.current_move.other(), Piece::Rook), single) || bit(
                piece_bits(board, board.current_move.other(), Piece::Queen),
                single,
            ))
        } else {
            spec_no_rook_behind(board, moves, en_passanted, own_position, k + 1)
        }
    }
}

/// Taking en passant does not open the own king's rank to an opponent rook or queen.
pub open spec fn spec_en_passant_no_check(board: Chessboard, own_position: int, own_color: Color, en_passanted: int) -> bool {
    let king = first_field(piece_bits(board, own_color, Piece::King));
    if king >= 64 {
        true
    } else {
        let left = ray(king, -1, file_of(king));
        let right = ray(king, 1, 7 - file_of(king));
        if left.contains(own_position as usize) && left.contains(en_passanted as usize) {
            spec_no_rook_behind(board, left, en_passanted, own_position, 0)
        } else if right.contains(own_position as usize) && right.contains(en_passanted as usize) {
            spec_no_rook_behind(board, right, en_passanted, own_position, 0)
        } else {
            true
        }
    }
}

/// Whether `v` holds `x`.
pub fn vec_contains(v: &Vec<usize>, x: usize) -> (r: bool)
    ensures
        r == v@.contains(x),
{
    let mut i: usize = 0;
    while i < v.len()
        invariant
            i <= v.len(),
            forall|j: int| 0 <= j < i ==> v@[j] != x,
        decreases v.len() - i,
    {
        if v[i] == x {
            assert(v@[i as int] == x);
            return true;
        }
        i = i + 1;
    }
    false
}

fn check_if_other_figure_in_between(board: &Chessboard, moves: &Vec<usize>, en_passanted: &usize, own_position: &usize) -> (r: bool)
    requires
        forall|k: int| 0 <= k < moves@.len() ==> moves@[k] < 64,
    ensures
        r == spec_no_rook_behind(*board, moves@, *en_passanted as int, *own_position as int, 0),
{
    let mut i: usize = 0;
    while i < moves.len()
        invariant
            i <= moves.len(),
            forall|k: int| 0 <= k < moves@.len() ==> moves@[k] < 64,
            spec_no_rook_behind(*board, moves@, *en_passanted as int, *own_position as int, 0)
                == spec_no_rook_behind(*board, moves@, *en_passanted as int, *own_position as int, i as int),
        decreases moves.len() - i,
    {
        let single = moves[i];
        // ignore both pawns involved in en passant
        if single != *en_passanted && single != *own_position && board.positions.field_is_used(single) {
            let opponent = board.get_opponent_color();
            return !board.is_queen_or_rook(opponent, single);
        }
        i = i + 1;
    }
    true
}

// check if en passant would put our king into check (not captures by pinned peaces, as there are two between R/Q and K)
fn en_passant_no_check(board: &Chessboard, own_position: &usize, own_color: Color, en_passanted: &usize) -> (r: bool)
    ensures
        r == spec_en_passant_no_check(*board, *own_position as int, own_color, *en_passanted as int),
{
    let own_king_board = board.get_pieces(own_color, Piece::King);
    let own_king_position = own_king_board.get_first_field();
    if own_king_position < 64 {
        let moves = get_moves_for_field(own_king_position);
        if vec_contains(&moves.left, *own_position) && vec_contains(&moves.left, *en_passanted) {
            return check_if_other_figure_in_between(board, &moves.left, en_passanted, own_position);
        }
        if vec_contains(&moves.right, *own_position) && vec_contains(&moves.right, *en_passanted) {
            return check_if_other_figure_in_between(board, &moves.right, en_passanted, own_position);
        }
    }
    true
}

/// The four promotions of a pawn moving from `from` to `to`: queen, knight, bishop, rook.
pub open spec fn promotion_moves_to(from: usize, to: usize) -> Seq<PossibleMove> {
    seq![
        PossibleMove { to, from, promoted_to: Some(Promotion::Queen) },
        PossibleMove { to, from, promoted_to: Some(Promotion::Knight) },
        PossibleMove { to, from, promoted_to: Some(Promotion::Bishop) },
        PossibleMove { to, from, promoted_to: Some(Promotion::Rook) },
    ]
}

/// The promotions for each target in order.
pub open spec fn promotion_moves(from: usize, tos: Seq<usize>) -> Seq<PossibleMove>
    decreases tos.len(),
{
    if tos.len() == 0 {
        Seq::empty()
    } else {
        promotion_moves(from, tos.drop_last()) + promotion_moves_to(from, tos.last())
    }
}

fn add_promotion_to_possible_moves(old_field: usize, new_field: usize, possible_moves: &mut Vec<PossibleMove>)
    ensures
        final(possible_moves)@ == old(possible_moves)@ + promotion_moves_to(old_field, new_field),
{
    possible_moves.push(PossibleMove { to: new_field, from: old_field, promoted_to: Some(Promotion::Queen) });
    possible_moves.push(PossibleMove { to: new_field, from: old_field, promoted_to: Some(Promotion::Knight) });
    possible_moves.push(PossibleMove { to: new_field, from: old_field, promoted_to: Some(Promotion::Bishop) });
    possible_moves.push(PossibleMove { to: new_field, from: old_field, promoted_to: Some(Promotion::Rook) });
    assert(possible_moves@ =~= old(possible_moves)@ + promotion_moves_to(old_field, new_field));
}

fn push_promotions_to_targets(from: usize, targets: Bitboard, possible_moves: &mut Vec<PossibleMove>)
    ensures
        final(possible_moves)@ == old(possible_moves)@ + promotion_moves(from, fields_of(targets.board)),
{
    let fields = targets.get_used_fields();
    let ghost start = possible_moves@;
    let mut k: usize = 0;
    while k < fields.len()
        invariant
            k <= fields.len(),
            fields@ == fields_of(targets.board),
            start == old(possible_moves)@,
            possible_moves@ == start + promotion_moves(from, fields@.take(k as int)),
        decreases fields.len() - k,
    {
        add_promotion_to_possible_moves(from, fields[k], possible_moves);
        assert(fields@.take(k + 1).drop_last() == fields@.take(k as int));
        assert(possible_moves@ =~= start + promotion_moves(from, fields@.take(k + 1)));
        k = k + 1;
    }
    assert(fields@.take(fields.len() as int) == fields@);
}

/// Pawn captures from `own_position` onto the squares of `targets`: as promotions if any of them
/// lies on a promotion rank, as plain moves otherwise.
pub open spec fn pawn_takes_from(own_position: usize, targets: Set<int>, promoting: Set<int>) -> Seq<PossibleMove> {
    if promoting != Set::<int>::empty() {
        promotion_moves(own_position, set_fields(promoting))
    } else {
        moves_from(own_position, set_fields(targets))
    }
}

/// The pawn's captures (as promotions on the last rank).
pub open spec fn spec_pawn_takes(board: Chessboard, own_position: usize, own_color: Color) -> Seq<PossibleMove> {
    let targets = pawn_threat_targets(own_color, own_position as int).intersect(bits(opponents_bits(board)));
    pawn_takes_from(own_position, targets, targets.intersect(promotion_squares()))
}

fn add_pawn_takes(board: &Chessboard, own_color: Color, own_position: usize, possible_moves: &mut Vec<PossibleMove>)
    requires
        own_position < 64,
    ensures
        final(possible_moves)@ == old(possible_moves)@ + spec_pawn_takes(*board, own_position, own_color),
{
    let possible_takes = pawn_takes_for_square(own_color, own_position);
    let real_takes = Bitboard { board: possible_takes.board & board.get_opponents().board };
    let promotion_fields = get_pawn_promotion_moves();
    let takes_with_promotion = Bitboard { board: real_takes.board & promotion_fields.board };
    proof {
        lemma_bits_and(possible_takes.board, opponents_bits(*board));
        lemma_bits_and(real_takes.board, promotion_fields.board);
        crate::board::bitboard::lemma_bits_zero(takes_with_promotion.board);
    }
    // we either have takes with promotion or regular takes - never both
    if takes_with_promotion.board != 0 {
        push_promotions_to_targets(own_position, takes_with_promotion, possible_moves);
    } else {
        push_moves_to_targets(own_position, real_takes, possible_moves);
    }
}

/// `m` when `cond` holds, and no moves otherwise.
pub open spec fn maybe(cond: bool, m: Seq<PossibleMove>) -> Seq<PossibleMove> {
    if cond { m } else { Seq::empty() }
}

/// The plain move from `from` to `to`.
pub open spec fn single_move(from: int, to: int) -> Seq<PossibleMove> {
    seq![PossibleMove { from: from as usize, to: to as usize, promoted_to: None }]
}

/// En passant captures of the pawn on `own_position` onto the square behind the pawn on `e`.
pub open spec fn spec_en_passant_moves(board: Chessboard, own_position: usize, own_color: Color, e: usize) -> Seq<PossibleMove> {
    let one = spec_forward(own_position as int, own_color, 8);
    maybe(
        spec_pawn_can_move_left(own_position as int, own_color) && spec_en_passant_left(own_position as int, own_color) == e
            && spec_en_passant_no_check(board, own_position as int, own_color, e as int),
        single_move(own_position as int, spec_take_left(one, own_color)),
    ) + maybe(
        spec_pawn_can_move_right(own_position as int, own_color) && spec_en_passant_right(own_position as int, own_color) == e
            && spec_en_passant_no_check(board, own_position as int, own_color, e as int),
        single_move(own_position as int, spec_take_right(one, own_color)),
    )
}

/// Quiet pawn moves: en passant captures first, then one step (unless it promotes) and two
/// steps from the starting rank, each onto empty squares.
pub open spec fn spec_pawn_moves(board: Chessboard, own_position: usize, own_color: Color) -> Seq<PossibleMove> {
    let one = spec_forward(own_position as int, own_color, 8);
    let two = spec_forward(own_position as int, own_color, 16);
    let ep = match board.en_passant {
        Some(e) => spec_en_passant_moves(board, own_position, own_color, e),
        None => Seq::empty(),
    };
    ep + maybe(
        !bit(board.positions.board, one),
        maybe(!spec_will_promote(one, own_color), single_move(own_position as int, one)) + maybe(
            spec_can_move_two_fields(own_position as int, own_color) && !bit(board.positions.board, two),
            single_move(own_position as int, two),
        ),
    )
}

/// The pawn is not on the far rank it moves toward.
pub open spec fn pawn_can_step(own_position: int, own_color: Color) -> bool {
    match own_color {
        Color::White => own_position < 56,
        Color::Black => 8 <= own_position < 64,
    }
}

fn push_single(from: usize, to: usize, possible_moves: &mut Vec<PossibleMove>)
    ensures
        final(possible_moves)@ == old(possible_moves)@ + single_move(from as int, to as int),
{
    possible_moves.push(PossibleMove { from, to, promoted_to: None });
    assert(possible_moves@ =~= old(possible_moves)@ + single_move(from as int, to as int));
}

fn push_en_passant_moves(board: &Chessboard, own_position: usize, own_color: Color, possible_en_passant: usize, possible_moves: &mut Vec<PossibleMove>)
    requires
        pawn_can_step(own_position as int, own_color),
    ensures
        final(possible_moves)@ == old(possible_moves)@ + spec_en_passant_moves(*board, own_position, own_color, possible_en_passant),
{
    let one_step_forward = calculate_forward_position(own_position, own_color, 8);
    let ghost start = possible_moves@;
    if figure_can_move_left(own_position, &own_color) && en_passant_position_left(&own_position, own_color) == possible_en_passant
        && en_passant_no_check(board, &own_position, own_color, &possible_en_passant)
    {
        let take_left_position = take_left_position(&one_step_forward, own_color);
        push_single(own_position, take_left_position, possible_moves);
    }
    let ghost mid = possible_moves@;
    if figure_can_move_right(own_position, &own_color) {
        if en_passant_position_right(&own_position, own_color) == possible_en_passant
            && en_passant_no_check(board, &own_position, own_color, &possible_en_passant)
        {
            let take_right_position = take_right_position(&one_step_forward, own_color);
            push_single(own_position, take_right_position, possible_moves);
        }
    }
    assert(possible_moves@ =~= start + spec_en_passant_moves(*board, own_position, own_color, possible_en_passant));
}

/// Appends the pawn's quiet moves (see `spec_pawn_moves`).
pub fn get_possible_pawn_moves(board: &Chessboard, own_position: usize, own_color: Color, possible_moves: &mut Vec<PossibleMove>)
    requires
        pawn_can_step(own_position as int, own_color),
    ensures
        final(possible_moves)@ == old(possible_moves)@ + spec_pawn_moves(*board, own_position, own_color),
{
    let ghost start = possible_moves@;
    let one_step_forward = calculate_forward_position(own_position, own_color, 8);
    if let Some(possible_en_passant) = board.en_passant {
        push_en_passant_moves(board, own_position, own_color, possible_en_passant, possible_moves);
    }
    let ghost after_ep = possible_moves@;
    // one field forward
    if !board.positions.field_is_used(one_step_forward) {
        if !figure_will_promote(one_step_forward, &own_color) {
            push_single(own_position, one_step_forward, possible_moves);
        }
        // two fields forward
        if can_move_two_fields(own_position, own_color) {
            let two_steps_forward = calculate_forward_position(own_position, own_color, 16);
            if !board.positions.field_is_used(two_steps_forward) {
                push_single(own_position, two_steps_forward, possible_moves);
            }
        }
    }
    assert(possible_moves@ =~= start + spec_pawn_moves(*board, own_position, own_color));
}

/// The squares a pawn of `own_color` on `own_position` attacks.
pub fn get_fields_threatened_by_pawn(own_position: usize, own_color: Color) -> (r: Bitboard)
    requires
        own_position < 64,
    ensures
        r@ == pawn_threat_targets(own_color, own_position as int),
{
    pawn_takes_for_square(own_color, own_position)
}

/// Captures (as promotions on the last rank) followed by the promotions of a step forward.
pub open spec fn spec_pawn_takes_and_promotion(board: Chessboard, own_position: usize, own_color: Color) -> Seq<PossibleMove> {
    let one = spec_forward(own_position as int, own_color, 8);
    spec_pawn_takes(board, own_position, own_color) + maybe(
        spec_will_promote(one, own_color) && !bit(board.positions.board, one),
        promotion_moves_to(own_position, one as usize),
    )
}

/// Appends the pawn's captures and promotions (see `spec_pawn_takes_and_promotion`).
pub fn get_possible_pawn_takes_and_promotion(board: &Chessboard, own_position: usize, own_color: Color, possible_moves: &mut Vec<PossibleMove>)
    requires
        pawn_can_step(own_position as int, own_color),
    ensures
        final(possible_moves)@ == old(possible_moves)@ + spec_pawn_takes_and_promotion(*board, own_position, own_color),
{
    let ghost start = possible_moves@;
    add_pawn_takes(board, own_color, own_position, possible_moves);
    let ghost mid = possible_moves@;
    let one_step_forward = calculate_forward_position(own_position, own_color, 8);
    if figure_will_promote(one_step_forward, &own_color) && !board.positions.field_is_used(one_step_forward) {
        add_promotion_to_possible_moves(own_position, one_step_forward, possible_moves);
    }
    assert(possible_moves@ =~= start + spec_pawn_takes_and_promotion(*board, own_position, own_color));
}


/// Captures onto check squares (as promotions on the last rank).
pub open spec fn spec_pawn_prevent_takes(board: Chessboard, own_position: usize, own_color: Color, prevent_check_fields: Bitboard) -> Seq<PossibleMove> {
    let targets = pawn_threat_targets(own_color, own_position as int).intersect(bits(opponents_bits(board))).intersect(
        prevent_check_fields@,
    );
    pawn_takes_from(own_position, targets, targets.intersect(promotion_squares()).intersect(prevent_check_fields@))
}

/// En passant stops the check when the only check square is the pawn that can be taken.
pub open spec fn spec_pawn_prevent_en_passant(board: Chessboard, own_position: usize, own_color: Color, prevent_check_fields: Bitboard) -> Seq<PossibleMove> {
    match board.en_passant {
        Some(e) => maybe(
            fields_of(prevent_check_fields.board).len() == 1 && first_field(prevent_check_fields.board) == e,
            spec_en_passant_moves(board, own_position, own_color, e),
        ),
        None => Seq::empty(),
    }
}

/// Steps onto check squares (a step to the last rank as promotions).
pub open spec fn spec_pawn_prevent_steps(board: Chessboard, own_position: usize, own_color: Color, prevent_check_fields: Bitboard) -> Seq<PossibleMove> {
    let one = spec_forward(own_position as int, own_color, 8);
    let two = spec_forward(own_position as int, own_color, 16);
    maybe(
        !bit(board.positions.board, one),
        maybe(
            bit(prevent_check_fields.board, one),
            if spec_will_promote(one, own_color) {
                promotion_moves_to(own_position, one as usize)
            } else {
                single_move(own_position as int, one)
            },
        ) + maybe(
            spec_can_move_two_fields(own_position as int, own_color) && bit(prevent_check_fields.board, two)
                && !bit(board.positions.board, two),
            single_move(own_position as int, two),
        ),
    )
}

/// Pawn moves that stop a check: captures, en passant, then steps.
#[verifier::opaque]
pub open spec fn spec_pawn_prevent_check(board: Chessboard, own_position: usize, own_color: Color, prevent_check_fields: Bitboard) -> Seq<PossibleMove> {
    spec_pawn_prevent_takes(board, own_position, own_color, prevent_check_fields)
        + spec_pawn_prevent_en_passant(board, own_position, own_color, prevent_check_fields)
        + spec_pawn_prevent_steps(board, own_position, own_color, prevent_check_fields)
}

fn pawn_prevent_takes(board: &Chessboard, own_position: usize, own_color: Color, prevent_check_fields: Bitboard, possible_moves: &mut Vec<PossibleMove>)
    requires
        own_position < 64,
    ensures
        final(possible_moves)@ == old(possible_moves)@ + spec_pawn_prevent_takes(*board, own_position, own_color, prevent_check_fields),
{
    let possible_takes = pawn_takes_for_square(own_color, own_position);
    let real_takes = Bitboard {
        board: possible_takes.board & board.get_opponents().board & prevent_check_fields.board,
    };
    let promotion_fields = get_pawn_promotion_moves();
    let takes_with_promotion = Bitboard {
        board: real_takes.board & promotion_fields.board & prevent_check_fields.board,
    };
    proof {
        lemma_bits_and(possible_takes.board, opponents_bits(*board));
        lemma_bits_and(possible_takes.board & opponents_bits(*board), prevent_check_fields.board);
        lemma_bits_and(real_takes.board, promotion_fields.board);
        lemma_bits_and(real_takes.board & promotion_fields.board, prevent_check_fields.board);
        crate::board::bitboard::lemma_bits_zero(takes_with_promotion.board);
    }
    // we either have takes with promotion or regular takes - never both
    if takes_with_promotion.board != 0 {
        push_promotions_to_targets(own_position, takes_with_promotion, possible_moves);
    } else {
        push_moves_to_targets(own_position, real_takes, possible_moves);
    }
}

fn pawn_prevent_en_passant(board: &Chessboard, own_position: usize, own_color: Color, prevent_check_fields: Bitboard, possible_moves: &mut Vec<PossibleMove>)
    requires
        pawn_can_step(own_position as int, own_color),
    ensures
        final(possible_moves)@ == old(possible_moves)@ + spec_pawn_prevent_en_passant(*board, own_position, own_color, prevent_check_fields),
{
    if let Some(possible_en_passant) = board.en_passant {
        // en passant can only prevent check if there is exactly one field we can prevent check
        // (and that is the figure checking aka pawn)
        if prevent_check_fields.get_used_fields().len() == 1 {
            let checked_by_field = prevent_check_fields.get_first_field();
            // they are not the same -> no en passant to prevent possible
            if checked_by_field == possible_en_passant {
                push_en_passant_moves(board, own_position, own_color, possible_en_passant, possible_moves);
                return;
            }
        }
    }
    assert(possible_moves@ =~= old(possible_moves)@ + spec_pawn_prevent_en_passant(*board, own_position, own_color, prevent_check_fields));
}

fn pawn_prevent_steps(board: &Chessboard, own_position: usize, own_color: Color, prevent_check_fields: Bitboard, possible_moves: &mut Vec<PossibleMove>)
    requires
        pawn_can_step(own_position as int, own_color),
    ensures
        final(possible_moves)@ == old(possible_moves)@ + spec_pawn_prevent_steps(*board, own_position, own_color, prevent_check_fields),
{
    let ghost start = possible_moves@;
    let one_step_forward = calculate_forward_position(own_position, own_color, 8);
    // one field forward
    if !board.positions.field_is_used(one_step_forward) {
        if prevent_check_fields.field_is_used(one_step_forward) {
            if figure_will_promote(one_step_forward, &own_color) {
                add_promotion_to_possible_moves(own_position, one_step_forward, possible_moves);
            } else {
                push_single(own_position, one_step_forward, possible_moves);
            }
        }
        // two fields forward
        if can_move_two_fields(own_position, own_color) {
            let two_steps_forward = calculate_forward_position(own_position, own_color, 16);
            if prevent_check_fields.field_is_used(two_steps_forward) && !board.positions.field_is_used(two_steps_forward) {
                push_single(own_position, two_steps_forward, possible_moves);
            }
        }
    }
    assert(possible_moves@ =~= start + spec_pawn_prevent_steps(*board, own_position, own_color, prevent_check_fields));
}

/// Appends the pawn's moves that stop a check (see `spec_pawn_prevent_check`).
pub fn get_possible_pawn_moves_to_prevent_check(
    board: &Chessboard,
    own_position: usize,
    own_color: Color,
    prevent_check_fields: Bitboard,
    possible_moves: &mut Vec<PossibleMove>,
)
    requires
        pawn_can_step(own_position as int, own_color),
    ensures
        final(possible_moves)@ == old(possible_moves)@ + spec_pawn_prevent_check(*board, own_position, own_color, prevent_check_fields),
{
    let ghost start = possible_moves@;
    let ghost a = spec_pawn_prevent_takes(*board, own_position, own_color, prevent_check_fields);
    let ghost b = spec_pawn_prevent_en_passant(*board, own_position, own_color, prevent_check_fields);
    let ghost c = spec_pawn_prevent_steps(*board, own_position, own_color, prevent_check_fields);
    pawn_prevent_takes(board, own_position, own_color, prevent_check_fields, possible_moves);
    pawn_prevent_en_passant(board, own_position, own_color, prevent_check_fields, possible_moves);
    pawn_prevent_steps(board, own_position, own_color, prevent_check_fields, possible_moves);
    proof {
        assert(possible_moves@ == start + a + b + c);
        assert(start + a + b + c =~= start + (a + b + c));
        reveal(spec_pawn_prevent_check);
    }
}

/// A pawn move from `pos` goes forward for its color: one rank ahead onto the same or a
/// neighbouring file, or two ranks ahead on the same file.
pub open spec fn pawn_advances(pos: int, color: Color, m: PossibleMove) -> bool {
    let d: int = if color == Color::White { 1 } else { -1 };
    let t = m.to as int;
    &&& m.from as int == pos
    &&& 0 <= t < 64
    &&& abs_diff(file_of(t), file_of(pos)) <= 1
    &&& (rank_of(t) == rank_of(pos) + d || (rank_of(t) == rank_of(pos) + 2 * d && file_of(t) == file_of(pos)))
}

proof fn lemma_promotion_moves_from(from: usize, tos: Seq<usize>, k: int)
    requires
        0 <= k < promotion_moves(from, tos).len(),
    ensures
        promotion_moves(from, tos).len() == 4 * tos.len(),
        promotion_moves(from, tos)[k].from == from,
        tos.contains(promotion_moves(from, tos)[k].to),
    decreases tos.len(),
{
    let prev = promotion_moves(from, tos.drop_last());
    if k < prev.len() {
        lemma_promotion_moves_from(from, tos.drop_last(), k);
        assert(promotion_moves(from, tos)[k] == prev[k]);
        let j = choose|j: int| 0 <= j < tos.drop_last().len() && tos.drop_last()[j] == prev[k].to;
        assert(tos[j] == prev[k].to);
    } else {
        lemma_promotion_moves_len(from, tos.drop_last());
        assert(promotion_moves(from, tos)[k] == promotion_moves_to(from, tos.last())[k - prev.len()]);
        assert(tos[tos.len() - 1] == tos.last());
    }
    lemma_promotion_moves_len(from, tos);
}

proof fn lemma_promotion_moves_len(from: usize, tos: Seq<usize>)
    ensures
        promotion_moves(from, tos).len() == 4 * tos.len(),
    decreases tos.len(),
{
    if tos.len() > 0 {
        lemma_promotion_moves_len(from, tos.drop_last());
    }
}

/// Pawns only go forward: every quiet move, capture or promotion of a pawn on `pos` (a square
/// from which it can still step) starts on `pos` and lands one rank ahead for its color, on the
/// same or a neighbouring file, or two ranks ahead on the same file.
pub proof fn law_pawns_move_forward(board: Chessboard, pos: usize, color: Color)
    requires
        pos < 64,
        pawn_can_step(pos as int, color),
    ensures
        forall|k: int| 0 <= k < spec_pawn_moves(board, pos, color).len()
            ==> pawn_advances(pos as int, color, #[trigger] spec_pawn_moves(board, pos, color)[k]),
        forall|k: int| 0 <= k < spec_pawn_takes_and_promotion(board, pos, color).len()
            ==> pawn_advances(pos as int, color, #[trigger] spec_pawn_takes_and_promotion(board, pos, color)[k]),
{
    let p = pos as int;
    assert(p == 8 * (p / 8) + p % 8 && 0 <= p % 8 < 8);
    let one = spec_forward(p, color, 8);
    let two = spec_forward(p, color, 16);
    assert(one == 8 * (p / 8 + (if color == Color::White { 1int } else { -1int })) + p % 8);
    assert(0 <= one < 64);
    assert(one / 8 == p / 8 + (if color == Color::White { 1int } else { -1int }) && one % 8 == p % 8);
    let quiet = spec_pawn_moves(board, pos, color);
    assert forall|k: int| 0 <= k < quiet.len() implies pawn_advances(p, color, #[trigger] quiet[k]) by {
        let ep = match board.en_passant {
            Some(e) => spec_en_passant_moves(board, pos, color, e),
            None => Seq::<PossibleMove>::empty(),
        };
        let m = quiet[k];
        if k < ep.len() {
            let e = board.en_passant->0;
            let left = maybe(
                spec_pawn_can_move_left(p, color) && spec_en_passant_left(p, color) == e
                    && spec_en_passant_no_check(board, p, color, e as int),
                single_move(p, spec_take_left(one, color)),
            );
            assert(m == ep[k]);
            if k < left.len() {
                let t = spec_take_left(one, color);
                assert(m.to as int == t);
                if color == Color::White {
                    assert(t == 8 * (p / 8 + 1) + (p % 8 - 1));
                } else {
                    assert(t == 8 * (p / 8 - 1) + (p % 8 + 1));
                }
            } else {
                let t = spec_take_right(one, color);
                assert(m.to as int == t);
                if color == Color::White {
                    assert(t == 8 * (p / 8 + 1) + (p % 8 + 1));
                } else {
                    assert(t == 8 * (p / 8 - 1) + (p % 8 - 1));
                }
            }
        } else {
            let rest = maybe(!spec_will_promote(one, color), single_move(p, one)) + maybe(
                spec_can_move_two_fields(p, color) && !bit(board.positions.board, two),
                single_move(p, two),
            );
            assert(m == rest[k - ep.len()]);
            let first = maybe(!spec_will_promote(one, color), single_move(p, one));
            if k - ep.len() < first.len() {
                assert(m.to as int == one);
            } else {
                assert(m.to as int == two);
                assert(two == 8 * (p / 8 + 2 * (if color == Color::White { 1int } else { -1int })) + p % 8);
            }
        }
    }
    let takes = spec_pawn_takes_and_promotion(board, pos, color);
    let targets = pawn_threat_targets(color, p).intersect(bits(opponents_bits(board)));
    let promoting = targets.intersect(promotion_squares());
    lemma_set_fields_members(targets, 64);
    lemma_set_fields_members(promoting, 64);
    assert forall|k: int| 0 <= k < takes.len() implies pawn_advances(p, color, #[trigger] takes[k]) by {
        let captures = spec_pawn_takes(board, pos, color);
        let m = takes[k];
        if k < captures.len() {
            assert(m == captures[k]);
            if promoting != Set::<int>::empty() {
                lemma_promotion_moves_from(pos, set_fields(promoting), k);
                let j = choose|j: int| 0 <= j < set_fields(promoting).len() && set_fields(promoting)[j] == m.to;
                assert(promoting.contains(set_fields(promoting)[j] as int));
            } else {
                assert(targets.contains(set_fields(targets)[k] as int));
            }
        } else {
            assert(m == promotion_moves_to(pos, one as usize)[k - captures.len()]);
        }
    }
}

} // verus!

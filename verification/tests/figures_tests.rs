use rusty_rook::board::bitboard::Bitboard;
use rusty_rook::board::board::Chessboard;
use rusty_rook::engine::engine::PossibleMove;
use rusty_rook::figures::color::Color;
use rusty_rook::figures::king::get_possible_king_moves;
use rusty_rook::figures::knight::{get_possible_knight_moves, get_possible_knight_takes};
use rusty_rook::figures::pawn::{get_possible_pawn_moves, get_possible_pawn_takes_and_promotion};
use rusty_rook::figures::piece::Piece;
use rusty_rook::figures::sliding_moves::{get_possible_bishop_moves, get_possible_queen_moves, get_possible_rook_moves};
use rusty_rook::helper::movement::{figure_can_move_left, figure_can_move_right};

#[test]
fn king_move_empty_board() {
    let mut board = Chessboard::empty(Color::White);
    board.castle.set_has_castled(Color::Black);

    let mut moves = Vec::new();
    get_possible_king_moves(&board, 10, Color::Black, Bitboard::new(), &mut moves);
    assert_eq!(8, moves.len());

    let mut moves = Vec::new();
    get_possible_king_moves(&board, 0, Color::Black, Bitboard::new(), &mut moves);
    assert_eq!(3, moves.len());

    let mut moves = Vec::new();
    get_possible_king_moves(&board, 31, Color::Black, Bitboard::new(), &mut moves);
    assert_eq!(5, moves.len());
}

#[test]
fn castle_on_empty_board() {
    let mut board = Chessboard::empty(Color::White);
    board.castle.white_castle_short = true;
    board.castle.white_castle_long = true;
    board.positions.set_field(0);
    board.positions.set_field(4);
    board.positions.set_field(7);

    board.figures[Color::White as usize][Piece::Rook as usize].set_field(7);
    board.figures[Color::White as usize][Piece::Rook as usize].set_field(0);

    let mut moves = Vec::new();
    get_possible_king_moves(&board, 4, Color::White, Bitboard::new(), &mut moves);

    let own_move_positions: Vec<usize> = moves.into_iter().map(|x| x.to).collect();
    // can castle left and right
    assert_eq!(7, own_move_positions.len());

    assert_eq!(true, own_move_positions.contains(&6));
    assert_eq!(true, own_move_positions.contains(&2));
}

#[test]
fn not_able_to_castle_long() {
    let mut board = Chessboard::empty(Color::White);
    board.castle.white_castle_short = true;
    board.castle.white_castle_long = true;
    board.positions.set_field(0);
    board.positions.set_field(4);
    board.positions.set_field(7);
    board.figures[Color::White as usize][Piece::Rook as usize].set_field(7);
    board.figures[Color::White as usize][Piece::Rook as usize].set_field(0);

    let mut opponent_moves = Bitboard::new();
    opponent_moves.set_field(2);

    let mut moves = Vec::new();
    get_possible_king_moves(&board, 4, Color::White, opponent_moves, &mut moves);
    let own_move_positions: Vec<usize> = moves.into_iter().map(|x| x.to).collect();
    assert_eq!(6, own_move_positions.len());
    assert_eq!(true, own_move_positions.contains(&6));
    assert_eq!(false, own_move_positions.contains(&2));
}

#[test]
fn not_able_to_castle_long_as_extra_field_is_used() {
    let mut board = Chessboard::empty(Color::White);
    board.castle.white_castle_short = true;
    board.castle.white_castle_long = true;
    board.positions.set_field(0);
    board.positions.set_field(0);
    board.positions.set_field(4);
    board.positions.set_field(7);
    board.positions.set_field(1);

    board.figures[Color::White as usize][Piece::Rook as usize].set_field(7);
    board.figures[Color::White as usize][Piece::Rook as usize].set_field(0);

    let mut moves = Vec::new();
    get_possible_king_moves(&board, 4, Color::White, Bitboard::new(), &mut moves);
    let own_move_positions: Vec<usize> = moves.into_iter().map(|x| x.to).collect();
    assert_eq!(6, own_move_positions.len());
    assert_eq!(true, own_move_positions.contains(&6));
    assert_eq!(false, own_move_positions.contains(&2));
}

#[test]
fn not_able_to_castle() {
    let mut board = Chessboard::empty(Color::White);
    board.positions.set_field(0);
    board.positions.set_field(2);
    board.positions.set_field(4);
    board.positions.set_field(6);
    board.positions.set_field(7);

    board.figures[Color::White as usize][Piece::Rook as usize].set_field(7);
    board.figures[Color::White as usize][Piece::Rook as usize].set_field(0);

    let mut moves = Vec::new();
    get_possible_king_moves(&board, 4, Color::White, Bitboard::new(), &mut moves);
    let own_move_positions: Vec<usize> = moves.into_iter().map(|x| x.to).collect();

    // castle is not possible as there are figures in the way
    assert_eq!(5, own_move_positions.len());
    assert_eq!(false, own_move_positions.contains(&6));
    assert_eq!(false, own_move_positions.contains(&2));
}

#[test]
fn not_beeing_able_to_move_as_all_fields_are_check() {
    let mut board = Chessboard { current_move: Color::Black, ..Default::default() };
    // king is on d8 and checked by queen on h8 - king cannot move as c7-e7 are full with pawns
    board.positions.set_field(50);
    board.positions.set_field(51);
    board.positions.set_field(52);
    board.positions.set_field(59);
    board.positions.set_field(63);
    // it should also not be able to move to c8
    board.figures[Color::White as usize][Piece::Queen as usize].set_field(63);
    board.figures[Color::White as usize][Piece::Pawn as usize].set_field(50);
    board.figures[Color::White as usize][Piece::Pawn as usize].set_field(51);
    board.figures[Color::White as usize][Piece::Pawn as usize].set_field(52);

    let mut opponent_moves = Bitboard::new();
    opponent_moves.set_field(62);
    opponent_moves.set_field(61);
    opponent_moves.set_field(60);
    opponent_moves.set_field(59);
    opponent_moves.set_field(58);
    opponent_moves.set_field(57);

    let mut moves = Vec::new();
    get_possible_king_moves(&board, 59, Color::Black, opponent_moves, &mut moves);
    assert_eq!(0, moves.len());
}

#[test]
fn test_empty_board() {
    let board = Chessboard::empty(Color::White);

    let mut moves: Vec<PossibleMove> = Vec::new();
    get_possible_knight_moves(&board, 27, &mut moves);
    assert_eq!(8, moves.len());

    let mut moves = Vec::new();
    get_possible_knight_moves(&board, 0, &mut moves);
    assert_eq!(2, moves.len());

    let mut moves = Vec::new();
    get_possible_knight_moves(&board, 54, &mut moves);
    assert_eq!(4, moves.len());
}

#[test]
fn test_takes_default_board() {
    let board = Chessboard { ..Default::default() };

    let mut moves: Vec<PossibleMove> = Vec::new();
    get_possible_knight_takes(&board, 1, &mut moves);
    assert_eq!(0, moves.len());

    let mut moves = Vec::new();
    get_possible_knight_takes(&board, 33, &mut moves);
    // 48, 50
    assert_eq!(2, moves.len());
}

#[test]
fn pawn_test_normal_move() {
    let mut positions = Bitboard::new();

    positions.set_field(12);

    let board = Chessboard { positions, ..Default::default() };

    let mut moves = Vec::new();
    get_possible_pawn_moves(&board, 12, Color::White, &mut moves);

    assert_eq!(2, moves.len());
}

#[test]
fn pawn_test_take_from_a_to_h() {
    let mut board = Chessboard::empty(Color::White);
    board.positions.set_field(16);
    board.positions.set_field(23);
    board.positions.set_field(24);
    board.figures[Color::Black as usize][Piece::Pawn as usize].set_field(23);
    let mut moves = Vec::new();
    get_possible_pawn_moves(&board, 16, Color::White, &mut moves);

    // should not be able to take from Field 16(A3) to 23(H3)
    assert_eq!(0, moves.len());
}

#[test]
fn test_black_h_pawn_with_free_path() {
    let mut board = Chessboard { current_move: Color::Black, ..Default::default() };
    board.set_to_default();
    let mut moves = Vec::new();
    get_possible_pawn_moves(&board, 55, Color::Black, &mut moves);

    assert_eq!(2, moves.len());
}

#[test]
fn test_en_passant_left() {
    let mut board = Chessboard::empty(Color::White);
    board.en_passant = Some(34);
    board.figures[Color::Black as usize][Piece::Pawn as usize].set_field(34);
    board.positions.set_field(34);
    board.used_positions[Color::Black as usize].set_field(34);

    let mut moves = Vec::new();
    get_possible_pawn_moves(&board, 35, Color::White, &mut moves);
    let move_fields: Vec<usize> = moves.into_iter().map(|x| x.to).collect();
    assert_eq!(true, move_fields.contains(&42));
}

#[test]
fn test_en_passant_right() {
    let mut positions = Bitboard::new();
    positions.set_field(26);

    let mut board = Chessboard { positions, current_move: Color::Black, en_passant: Some(27), ..Default::default() };
    board.figures[Color::White as usize][Piece::Pawn as usize].set_field(27);

    let mut moves = Vec::new();
    get_possible_pawn_moves(&board, 26, Color::Black, &mut moves);
    let move_fields: Vec<usize> = moves.into_iter().map(|x| x.to).collect();
    assert_eq!(true, move_fields.contains(&19));
}

#[test]
fn test_en_passant_right_not_possible_as_it_would_put_us_in_check() {
    let mut positions = Bitboard::new();

    positions.set_field(26);
    positions.set_field(27);
    positions.set_field(31);
    let mut board = Chessboard { positions, current_move: Color::Black, en_passant: Some(27), ..Default::default() };
    board.figures[Color::White as usize][Piece::Pawn as usize].set_field(27);
    board.figures[Color::White as usize][Piece::Rook as usize].set_field(31);
    board.figures[Color::Black as usize][Piece::King as usize].set_field(24);
    board.used_positions[Color::White as usize].set_field(27);
    board.used_positions[Color::White as usize].set_field(31);
    board.used_positions[Color::Black as usize].set_field(24);

    let mut moves = Vec::new();
    get_possible_pawn_moves(&board, 26, Color::Black, &mut moves);
    let move_fields: Vec<usize> = moves.into_iter().map(|x| x.to).collect();
    assert_eq!(false, move_fields.contains(&19));
}

#[test]
fn test_promotion_white() {
    let mut board = Chessboard::empty(Color::White);
    board.figures[Color::White as usize][Piece::Pawn as usize].set_field(52);

    let mut moves = Vec::new();
    get_possible_pawn_takes_and_promotion(&board, 52, Color::White, &mut moves);
    assert_eq!(4, moves.len())
}

#[test]
fn test_promotion_black_with_capture() {
    let mut board = Chessboard::empty(Color::Black);
    board.used_positions[Color::White as usize].set_field(6);
    board.figures[Color::White as usize][Piece::Knight as usize].set_field(6);
    board.figures[Color::Black as usize][Piece::Pawn as usize].set_field(15);

    let mut moves = Vec::new();
    get_possible_pawn_takes_and_promotion(&board, 15, Color::Black, &mut moves);
    assert_eq!(8, moves.len())
}

#[test]
fn move_bishop_empty_board() {
    let board = Chessboard::empty(Color::White);

    let mut moves = Vec::new();

    get_possible_bishop_moves(&board, 27, &mut moves);
    assert_eq!(13, moves.len());

    let mut moves = Vec::new();
    get_possible_bishop_moves(&board, 0, &mut moves);
    assert_eq!(7, moves.len());
}

#[test]
fn bishop_not_able_to_move() {
    let mut board = Chessboard::empty(Color::White);
    board.used_positions[Color::White as usize].set_field(25);
    board.used_positions[Color::White as usize].set_field(27);
    board.used_positions[Color::White as usize].set_field(9);
    board.used_positions[Color::White as usize].set_field(11);

    board.positions.set_field(25);
    board.positions.set_field(27);
    board.positions.set_field(9);
    board.positions.set_field(11);

    let mut moves = Vec::new();
    get_possible_bishop_moves(&board, 18, &mut moves);
    assert_eq!(0, moves.len());
}

#[test]
fn bishop_able_to_move_in_two_directions() {
    let mut positions = Bitboard::new();
    positions.set_field(29);
    positions.set_field(13);
    let board = Chessboard { positions, ..Default::default() };

    let mut moves = Vec::new();
    get_possible_bishop_moves(&board, 20, &mut moves);
    assert_eq!(6, moves.len());
}

#[test]
fn queen_move_empty_board() {
    let mut moves = Vec::new();
    let board = Chessboard::empty(Color::White);
    get_possible_queen_moves(&board, 0, &mut moves);
    assert_eq!(21, moves.len());

    let mut moves = Vec::new();
    get_possible_queen_moves(&board, 19, &mut moves);
    assert_eq!(25, moves.len());
}

#[test]
fn test_bishop_in_corner_empty_board() {
    let board = Chessboard::empty(Color::White);
    let mut moves = Vec::new();
    get_possible_bishop_moves(&board, 0, &mut moves);
    assert_eq!(7, moves.len());
}

#[test]
fn test_queen_in_corner_empty_board() {
    let board = Chessboard::empty(Color::White);
    let mut moves = Vec::new();
    get_possible_queen_moves(&board, 0, &mut moves);
    assert_eq!(21, moves.len());
}

#[test]
fn rook_test_move_forward() {
    let mut positions = Bitboard::new();

    positions.set_field(24);
    positions.set_field(1);
    let board = Chessboard { positions, ..Default::default() };

    let mut moves = Vec::new();
    get_possible_rook_moves(&board, 0, &mut moves);
    assert_eq!(2, moves.len())
}

#[test]
fn rook_test_move_backward() {
    let mut board = Chessboard::empty(Color::White);

    board.positions.set_field(18);
    board.positions.set_field(25);
    board.positions.set_field(27);
    board.used_positions[Color::White as usize].set_field(18);
    board.used_positions[Color::White as usize].set_field(25);
    board.used_positions[Color::White as usize].set_field(27);

    let mut moves = Vec::new();
    get_possible_rook_moves(&board, 26, &mut moves);
    assert_eq!(4, moves.len())
}

#[test]
fn rook_test_movement_on_empty_board() {
    let board = Chessboard::empty(Color::White);
    let mut moves = Vec::new();
    get_possible_rook_moves(&board, 11, &mut moves);
    assert_eq!(14, moves.len())
}

#[test]
fn test_move_left() {
    assert_eq!(false, figure_can_move_left(&8));
    assert_eq!(true, figure_can_move_left(&15));
    assert_eq!(false, figure_can_move_left(&56));
    assert_eq!(false, figure_can_move_left(&32));
    assert_eq!(true, figure_can_move_left(&25));
    assert_eq!(true, figure_can_move_left(&30));
}

#[test]
fn test_move_right() {
    assert_eq!(false, figure_can_move_right(&7));
    assert_eq!(false, figure_can_move_right(&15));
    assert_eq!(false, figure_can_move_right(&31));
    assert_eq!(false, figure_can_move_right(&39));
    assert_eq!(true, figure_can_move_right(&18));
    assert_eq!(true, figure_can_move_right(&38));
    assert_eq!(true, figure_can_move_right(&16));
}

use std::collections::HashMap;
use rusty_rook::board::bitboard::Bitboard;
use rusty_rook::board::board::Chessboard;
use rusty_rook::engine::count::count_moves;
use rusty_rook::figures::color::Color;
use rusty_rook::figures::piece::Piece;

#[test]
fn test_adding_and_removing() {
    let mut board = Bitboard::new();
    board.set_field(5);
    assert_eq!(true, board.field_is_used(5));
    board.remove_field(5);
    assert_eq!(false, board.field_is_used(5));
}

#[test]
fn test_getting_all_used_fields() {
    let mut board = Bitboard::new();
    board.set_field(5);
    board.set_field(10);
    board.set_field(15);
    board.remove_field(10);
    let used = board.get_used_fields();
    assert_eq!(2, used.len());

    board.set_field(10);
    let used = board.get_used_fields();
    assert_eq!(3, used.len());
}

#[test]
fn short_castle_white() {
    let mut board: Chessboard = Chessboard::empty(Color::White);
    board.castle.white_castle_short = true;
    board.figures[Color::White as usize][Piece::Rook as usize].set_field(0);
    board.figures[Color::White as usize][Piece::King as usize].set_field(4);
    board.figures[Color::White as usize][Piece::Rook as usize].set_field(7);
    board.positions.set_field(0);
    board.positions.set_field(4);
    board.positions.set_field(7);

    board.update_position_from_uci_input("e1g1");
    assert_eq!(board.positions.field_is_used(6), true);
    assert_eq!(board.positions.field_is_used(5), true);
    assert_eq!(board.positions.field_is_used(7), false);
    assert_eq!(board.positions.field_is_used(4), false);
}

#[test]
fn long_castle_white() {
    let mut board = Chessboard::empty(Color::White);
    board.castle.white_castle_long = true;
    board.figures[Color::White as usize][Piece::Rook as usize].set_field(0);
    board.figures[Color::White as usize][Piece::King as usize].set_field(4);
    board.figures[Color::White as usize][Piece::Rook as usize].set_field(7);
    board.positions.set_field(0);
    board.positions.set_field(4);
    board.positions.set_field(7);

    board.update_position_from_uci_input("e1c1");
    assert_eq!(board.positions.field_is_used(3), true);
    assert_eq!(board.positions.field_is_used(2), true);
    assert_eq!(board.positions.field_is_used(0), false);
    assert_eq!(board.positions.field_is_used(4), false);
}

#[test]
fn short_castle_black() {
    let mut board = Chessboard::empty(Color::Black);
    board.castle.black_castle_short = true;

    board.figures[Color::Black as usize][Piece::Rook as usize].set_field(56);
    board.figures[Color::Black as usize][Piece::King as usize].set_field(60);
    board.figures[Color::Black as usize][Piece::Rook as usize].set_field(63);
    board.positions.set_field(56);
    board.positions.set_field(60);
    board.positions.set_field(63);

    board.update_position_from_uci_input("e8c8");
    assert_eq!(board.positions.field_is_used(58), true);
    assert_eq!(board.positions.field_is_used(59), true);
    assert_eq!(board.positions.field_is_used(56), false);
    assert_eq!(board.positions.field_is_used(60), false);
}

#[test]
fn long_castle_black() {
    let mut board = Chessboard::empty(Color::Black);
    board.castle.black_castle_long = true;
    board.figures[Color::Black as usize][Piece::Rook as usize].set_field(56);
    board.figures[Color::Black as usize][Piece::King as usize].set_field(60);
    board.figures[Color::Black as usize][Piece::Rook as usize].set_field(63);
    board.positions.set_field(56);
    board.positions.set_field(60);
    board.positions.set_field(63);

    board.update_position_from_uci_input("e8g8");
    assert_eq!(board.positions.field_is_used(61), true);
    assert_eq!(board.positions.field_is_used(62), true);
    assert_eq!(board.positions.field_is_used(60), false);
    assert_eq!(board.positions.field_is_used(63), false);
}

#[test]
fn promotion_black() {
    let mut board = Chessboard::empty(Color::Black);

    board.figures[Color::Black as usize][Piece::Pawn as usize].set_field(14);
    board.positions.set_field(14);

    board.update_position_from_uci_input("g2g1q");
    assert_eq!(board.positions.field_is_used(6), true);

    let black_queens = board.get_pieces(Color::Black, Piece::Queen).get_used_fields();
    assert_eq!(true, black_queens.contains(&6));
}

#[test]
fn promotion_white() {
    let mut board = Chessboard::empty(Color::White);

    board.figures[Color::White as usize][Piece::Pawn as usize].set_field(52);

    board.positions.set_field(52);

    board.update_position_from_uci_input("e7e8K");
    assert_eq!(board.positions.field_is_used(60), true);

    let white_knights = board.get_pieces(Color::White, Piece::Knight).get_used_fields();
    assert_eq!(true, white_knights.contains(&60));
}

#[test]
fn test_en_passant() {
    let mut board = Chessboard::empty(Color::Black);

    board.figures[Color::Black as usize][Piece::Pawn as usize].set_field(52);
    board.positions.set_field(52);
    board.move_figure(52, 36, None);
    assert_eq!(board.en_passant, Some(36));
}

#[test]
fn test_no_en_passant() {
    let mut board = Chessboard::empty(Color::Black);

    board.figures[Color::Black as usize][Piece::Pawn as usize].set_field(52);
    board.positions.set_field(52);
    board.move_figure(52, 44, None);

    assert_eq!(board.en_passant, None);
}

#[test]
fn test_if_en_passanted_figure_is_removed_black() {
    let mut board = Chessboard::empty(Color::Black);
    board.en_passant = Some(26);
    board.figures[Color::White as usize][Piece::Pawn as usize].set_field(26);
    board.figures[Color::Black as usize][Piece::Pawn as usize].set_field(25);

    board.move_figure(25, 18, None);

    assert_eq!(0, board.get_pieces(Color::White, Piece::Pawn).get_used_fields().len());
    assert_eq!(false, board.positions.field_is_used(26))
}

#[test]
fn test_if_en_passanted_figure_is_removed_white() {
    let mut board = Chessboard::empty(Color::White);
    board.en_passant = Some(36);
    board.figures[Color::White as usize][Piece::Pawn as usize].set_field(35);
    board.figures[Color::Black as usize][Piece::Pawn as usize].set_field(36);
    board.move_figure(35, 44, None);

    assert_eq!(0, board.get_pieces(Color::Black, Piece::Pawn).get_used_fields().len());
    assert_eq!(false, board.positions.field_is_used(36))
}

#[test]
fn test_position_creation() {
    let position = String::from("8/2p5/3p4/KP5r/1R3p1k/8/4P1P1/8");
    let mut board = Chessboard { ..Default::default() };
    board.create_position_from_input_string(position);

    assert_eq!(true, board.used_positions[Color::Black as usize].field_is_used(31));
    assert_eq!(true, board.used_positions[Color::Black as usize].field_is_used(39));
    assert_eq!(false, board.used_positions[Color::Black as usize].field_is_used(38));

    assert_eq!(true, board.used_positions[Color::White as usize].field_is_used(14));
    assert_eq!(true, board.used_positions[Color::White as usize].field_is_used(33));
    assert_eq!(false, board.used_positions[Color::White as usize].field_is_used(34));
}

#[test]
fn test_default_position() {
    let board = Chessboard { ..Default::default() };
    let count = count_moves(&board, 4, &HashMap::new());
    assert_eq!(197281, count);
}

#[test]
fn test_black_en_passant_on_a_file() {
    let mut board = Chessboard { ..Default::default() };
    board.create_position_from_input_string(String::from("8/8/8/8/p6k/8/1P5K/8 w - - 0 1"));
    board.move_figure(9, 25, None);

    let is_black_en_passant = board.is_en_passant_black(24, 17);
    assert_eq!(true, is_black_en_passant)
}

#[test]
fn test_black_en_passant_on_h_file() {
    let mut board = Chessboard { ..Default::default() };
    board.create_position_from_input_string(String::from("8/k2K4/8/8/7p/8/6P1/8 w - - 0 1"));
    board.move_figure(14, 30, None);

    let is_black_en_passant = board.is_en_passant_black(31, 22);
    assert_eq!(true, is_black_en_passant)
}

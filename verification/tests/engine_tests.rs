use rusty_rook::board::bitboard::Bitboard;
use rusty_rook::board::board::Chessboard;
use rusty_rook::engine::checked::{
    check_and_get_bishop_movement_check_field, check_and_get_rook_movement_check_field, get_fields_to_prevent_check,
};
use rusty_rook::engine::ray::get_pinned_pieces_and_possible_moves;
use rusty_rook::engine::sender::convert_number_to_chess_notation;
use rusty_rook::evaluation::get_column_and_row_from_position;
use rusty_rook::figures::color::Color;
use rusty_rook::figures::piece::Piece;

#[test]
fn test_rook_check() {
    let mut board = Chessboard { ..Default::default() };

    board.positions.set_field(19);
    board.positions.set_field(16);
    board.positions.set_field(1);

    board.figures[Color::White as usize][Piece::King as usize].set_field(19);
    board.figures[Color::Black as usize][Piece::Rook as usize].set_field(16);

    let mut opponent_moves = Bitboard::new();
    opponent_moves.set_field(19);
    opponent_moves.set_field(18);
    opponent_moves.set_field(17);
    assert_eq!(
        3,
        check_and_get_rook_movement_check_field(&board, &19, opponent_moves).unwrap().get_used_fields().len()
    );
}

#[test]
fn test_bishop_check() {
    let mut board = Chessboard { ..Default::default() };

    board.positions.set_field(19);
    board.positions.set_field(55);

    board.figures[Color::White as usize][Piece::King as usize].set_field(19);
    board.figures[Color::Black as usize][Piece::Bishop as usize].set_field(55);

    let mut opponent_moves = Bitboard::new();
    opponent_moves.set_field(46);
    opponent_moves.set_field(37);
    opponent_moves.set_field(28);
    opponent_moves.set_field(19);
    assert_eq!(
        4,
        check_and_get_bishop_movement_check_field(&board, &19, opponent_moves).unwrap().get_used_fields().len()
    );
}

#[test]
fn test_pawn_check_white() {
    let mut board = Chessboard { ..Default::default() };

    board.positions.set_field(19);
    board.positions.set_field(26);

    board.figures[Color::White as usize][Piece::King as usize].set_field(19);
    board.figures[Color::Black as usize][Piece::Pawn as usize].set_field(26);
    let opponent_moves = Bitboard::new();
    let result = get_fields_to_prevent_check(&board, 19, opponent_moves).get_used_fields();
    assert_eq!(1, result.len());
    assert_eq!(true, result.contains(&26))
}

#[test]
fn test_knigh_check_black() {
    let mut board = Chessboard { positions: Bitboard::new(), current_move: Color::Black, ..Default::default() };

    board.positions.set_field(8);
    board.positions.set_field(18);

    board.figures[Color::Black as usize][Piece::King as usize].set_field(8);
    board.figures[Color::White as usize][Piece::Knight as usize].set_field(18);

    let opponent_moves = Bitboard::new();
    let result = get_fields_to_prevent_check(&board, 8, opponent_moves).get_used_fields();
    assert_eq!(1, result.len());
    assert_eq!(true, result.contains(&18))
}

#[test]
fn check_pinned_piece() {
    let mut board = Chessboard { ..Default::default() };
    // move white queen up on diagonal
    board.move_figure(3, 33, None);
    // move black pawn forward
    board.move_figure(51, 35, None);
    // white rook to pin center
    board.move_figure(0, 20, None);
    // black knight into pin of queen
    board.move_figure(57, 42, None);
    // white dummy move to give the move to black
    board.move_figure(8, 16, None);

    let pinned = get_pinned_pieces_and_possible_moves(&board, &60);
    // e pawn and knight on 42
    assert_eq!(2, pinned.len());
}

#[test]
fn no_pinned_piece() {
    let board = Chessboard { ..Default::default() };

    let pinned = get_pinned_pieces_and_possible_moves(&board, &4);
    assert_eq!(0, pinned.len());
}

#[test]
fn not_pinned_as_there_in_a_pawn_in_between() {
    let mut board = Chessboard { ..Default::default() };
    board.move_figure(4, 19, None);
    let pinned = get_pinned_pieces_and_possible_moves(&board, &19);
    assert_eq!(0, pinned.len());
}

#[test]
fn test_move_convert() {
    assert_eq!("a1", convert_number_to_chess_notation(0));
    assert_eq!("c1", convert_number_to_chess_notation(2));
    assert_eq!("a8", convert_number_to_chess_notation(56));
    assert_eq!("h8", convert_number_to_chess_notation(63));
    assert_eq!("g5", convert_number_to_chess_notation(38));
    assert_eq!("h3", convert_number_to_chess_notation(23));
    assert_eq!("c8", convert_number_to_chess_notation(58));
    assert_eq!("d4", convert_number_to_chess_notation(27));
}

#[test]
fn test_column_and_row_finder() {
    let (column, row) = get_column_and_row_from_position(0);
    assert_eq!(1, column);
    assert_eq!(1, row);

    let (column, row) = get_column_and_row_from_position(27);
    assert_eq!(4, column);
    assert_eq!(4, row);

    let (column, row) = get_column_and_row_from_position(22);
    assert_eq!(3, column);
    assert_eq!(7, row);

    let (column, row) = get_column_and_row_from_position(63);
    assert_eq!(8, column);
    assert_eq!(8, row);

    let (column, row) = get_column_and_row_from_position(43);
    assert_eq!(6, column);
    assert_eq!(4, row);
}

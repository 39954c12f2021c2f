use std::collections::HashMap;
use rusty_rook::board::bitboard::Bitboard;
use rusty_rook::board::board::{is_readable_position, Chessboard};
use rusty_rook::board::castle::Castle;
use rusty_rook::board::fen::{char_is_alphabetic, char_is_lowercase};
use rusty_rook::board::promotion::{convert_input_string_to_promotion, convert_promotion_to_output_string, Promotion};
use rusty_rook::engine::count::count_moves;
use rusty_rook::engine::engine::PossibleMove;
use rusty_rook::engine::moves::{add_prev_best_move_as_first_move, get_not_pinned_pieces, get_valid_moves_in_position};
use rusty_rook::engine::sender::{move_notation, number_to_decimal};
use rusty_rook::evaluation::{check_where_king_is_located, get_position, KingPosition};
use rusty_rook::figures::color::Color;
use rusty_rook::figures::piece::Piece;
use rusty_rook::figures::sliding_moves::{bishop_attacks_from, rook_attacks_from};
use rusty_rook::helper::magic_bitboards::helper::{get_magic_index, init_king_safety_bitboards};
use rusty_rook::helper::magic_bitboards::init_with_predefined::{
    init_bishop_magic_arrays, init_bishop_magic_moves_array, init_rook_magic_arrays, init_rook_magic_moves_array,
};
use rusty_rook::helper::position_to_usize::get_validated_position_from_input;
use rusty_rook::uci::{get_time, get_time_for_move, get_value_from_commands, parse_u64, update_board};

use rusty_rook::engine::moves::can_generate_moves;
use rusty_rook::engine::count::try_count_moves;
use rusty_rook::uci::position_commands_are_playable;
use rusty_rook::uci::time_is_in_range;
use rusty_rook::uci::{map_input_to_action, UciAction};
use rusty_rook::helper::magic_bitboards::find::create_possible_moves_vec;
use rusty_rook::helper::magic_bitboards::magic_bitboard::MagicBitboard;
use rusty_rook::helper::moves_by_field::get_moves_for_each_field;
use rusty_rook::helper::moves_by_field::get_passed_pawn_rows;
use rusty_rook::helper::opening::{is_opening_move_line, is_position_line, position_of_line};
use rusty_rook::helper::position_to_usize::get_position_from_input;

#[test]
fn set_and_remove_field_touch_one_square() {
    let mut board = Bitboard::new();
    board.set_field(9);
    board.set_field(40);
    board.remove_field(9);
    assert!(!board.field_is_used(9));
    assert!(board.field_is_used(40));
    assert_eq!(board.board, 1u64 << 40);
}

#[test]
fn used_fields_are_ascending_and_complete() {
    let mut board = Bitboard::new();
    for square in [63usize, 0, 17, 33, 5] {
        board.set_field(square);
    }
    assert_eq!(vec![0, 5, 17, 33, 63], board.get_used_fields());
    assert_eq!(0, board.get_first_field());
    assert_eq!(64, Bitboard::new().get_first_field());
}

#[test]
fn castling_rights_are_lost_for_one_side_only() {
    assert!(!Castle { ..Default::default() }.can_castle(Color::White));
    let mut castle = Castle { white_castle_long: true, white_castle_short: true, black_castle_long: false, black_castle_short: true };
    assert!(castle.can_castle(Color::White) && castle.can_castle(Color::Black));
    castle.set_has_castled(Color::White);
    assert!(!castle.white_can_castle());
    assert!(castle.black_can_castle());
}

#[test]
fn move_notation_reads_back() {
    for (from, to, promotion) in [(12usize, 28usize, None), (52, 60, Some(Promotion::Queen)), (0, 63, None)] {
        let notation = move_notation(from, to, promotion);
        let parsed = get_validated_position_from_input(&notation).unwrap();
        assert_eq!(PossibleMove { from, to, promoted_to: promotion }, parsed);
    }
    assert_eq!("e7e8Q", move_notation(52, 60, Some(Promotion::Queen)));
    // the knight is written N but read from k: no round trip
    let knight = move_notation(52, 60, Some(Promotion::Knight));
    assert_eq!("e7e8N", knight);
    assert_eq!(None, get_validated_position_from_input(&knight).unwrap().promoted_to);
}

#[test]
fn promotion_letters_read_back_except_the_knight() {
    for promotion in [Promotion::Queen, Promotion::Rook, Promotion::Bishop] {
        let letter = convert_promotion_to_output_string(Some(promotion));
        assert_eq!(Some(promotion), convert_input_string_to_promotion(Some(&letter)));
    }
    let knight = convert_promotion_to_output_string(Some(Promotion::Knight));
    assert_eq!(None, convert_input_string_to_promotion(Some(&knight)));
    assert_eq!("", convert_promotion_to_output_string(None));
}

#[test]
fn decimal_reads_back() {
    for n in [0usize, 7, 10, 99, 1000, 123456789] {
        let written = number_to_decimal(n);
        assert_eq!(n.to_string(), written);
        assert_eq!(Some(n as u64), parse_u64(&written));
    }
}

#[test]
fn parse_rejects_what_std_rejects() {
    assert_eq!(Some(42), parse_u64("+42"));
    assert_eq!(None, parse_u64("+"));
    assert_eq!(None, parse_u64(""));
    assert_eq!(None, parse_u64("-1"));
    assert_eq!(None, parse_u64("12a"));
    assert_eq!(Some(u64::MAX), parse_u64("18446744073709551615"));
    assert_eq!(None, parse_u64("18446744073709551616"));
    for text in ["0", "+7", "007", "99999999999999999999", "x"] {
        assert_eq!(text.parse::<u64>().ok(), parse_u64(text));
    }
}

#[test]
fn value_after_first_key() {
    let commands = vec!["go", "wtime", "300000", "btime", "abc", "wtime", "5"];
    assert_eq!(Some(300000), get_value_from_commands(&commands, "wtime"));
    assert_eq!(None, get_value_from_commands(&commands, "btime"));
    assert_eq!(None, get_value_from_commands(&commands, "winc"));
    assert_eq!(None, get_value_from_commands(&vec!["go", "winc"], "winc"));
}

#[test]
fn thinking_time_formula() {
    // exact move time less 100
    assert_eq!(900, get_time(&vec!["go", "movetime", "1000"], "wtime", "winc"));
    // no clock: ten seconds
    assert_eq!(10000, get_time(&vec!["go", "infinite"], "wtime", "winc"));
    // 300000 / 40 + 2000
    assert_eq!(9500, get_time(&vec!["go", "wtime", "300000", "winc", "2000"], "wtime", "winc"));
    // 100000 / (18 + 2)
    assert_eq!(5000, get_time(&vec!["go", "btime", "100000", "movestogo", "18"], "btime", "binc"));
    // bounded to 1 and 15 seconds
    assert_eq!(1000, get_time(&vec!["go", "wtime", "100"], "wtime", "winc"));
    assert_eq!(15000, get_time(&vec!["go", "wtime", "10000000"], "wtime", "winc"));
    let commands = vec!["go", "wtime", "400000", "btime", "80000"];
    assert_eq!(10000, get_time_for_move(&commands, Color::White));
    assert_eq!(2000, get_time_for_move(&commands, Color::Black));
}

#[test]
fn repetitions_are_recorded() {
    let mut board = Chessboard { ..Default::default() };
    let mut once = Vec::new();
    let mut twice = Vec::new();
    let commands = vec!["position", "startpos", "moves", "g1f3", "g8f6", "f3g1", "f6g8", "g1f3", "g8f6", "f3g1", "f6g8"];
    update_board(commands, &mut board, &mut once, &mut twice);
    assert_eq!(4, once.len());
    assert_eq!(4, twice.len());
    for key in &twice {
        assert!(once.contains(key));
    }
    let start = Chessboard { ..Default::default() };
    assert_eq!(start.figures[0][1].board, board.figures[0][1].board);
    assert_eq!(Color::White, board.current_move);
}

#[test]
fn a_move_passes_the_turn_and_moves_the_piece() {
    let mut board = Chessboard { ..Default::default() };
    board.move_figure(6, 21, None);
    assert_eq!(Color::Black, board.current_move);
    assert!(board.get_pieces(Color::White, Piece::Knight).field_is_used(21));
    assert!(!board.get_pieces(Color::White, Piece::Knight).field_is_used(6));
    board.move_figure(62, 45, None);
    assert_eq!(Color::White, board.current_move);
}

#[test]
fn start_position_moves() {
    let board = Chessboard { ..Default::default() };
    let (moves, in_check) = get_valid_moves_in_position(&board, true, &HashMap::new());
    assert_eq!(20, moves.len());
    assert!(!in_check);
    // only captures: none at the start
    let (takes, _) = get_valid_moves_in_position(&board, false, &HashMap::new());
    assert_eq!(0, takes.len());
    // counting one level deep counts the moves
    assert_eq!(20, count_moves(&board, 1, &HashMap::new()));
    assert_eq!(400, count_moves(&board, 2, &HashMap::new()));
    assert_eq!(8902, count_moves(&board, 3, &HashMap::new()));
}

#[test]
fn double_check_leaves_only_king_moves() {
    let mut board = Chessboard { ..Default::default() };
    board.create_position_from_input_string(String::from("4k3/8/8/8/8/5n2/8/r3K3 w - - 0 1"));
    let (moves, in_check) = get_valid_moves_in_position(&board, true, &HashMap::new());
    assert!(in_check);
    assert!(moves.iter().all(|m| m.from == 4));
}

#[test]
fn best_move_goes_first() {
    let a = PossibleMove { from: 1, to: 2, promoted_to: None };
    let b = PossibleMove { from: 3, to: 4, promoted_to: None };
    let c = PossibleMove { from: 5, to: 6, promoted_to: Some(Promotion::Rook) };
    let mut moves = vec![a, b, c];
    add_prev_best_move_as_first_move(&mut moves, Some(b));
    assert_eq!(vec![b, a, c], moves);
    let d = PossibleMove { from: 7, to: 8, promoted_to: None };
    add_prev_best_move_as_first_move(&mut moves, Some(d));
    assert_eq!(vec![d, b, a, c], moves);
    add_prev_best_move_as_first_move(&mut moves, None);
    assert_eq!(4, moves.len());
}

#[test]
fn pinned_piece_keeps_its_line() {
    let mut board = Chessboard { ..Default::default() };
    // white king e1, white rook e2, black rook e8: the rook on e2 is pinned to the e-file
    board.create_position_from_input_string(String::from("4r2k/8/8/8/8/8/4R3/4K3 w - - 0 1"));
    let moves = vec![
        PossibleMove { from: 12, to: 20, promoted_to: None },
        PossibleMove { from: 12, to: 13, promoted_to: None },
        PossibleMove { from: 12, to: 60, promoted_to: None },
        PossibleMove { from: 4, to: 5, promoted_to: None },
    ];
    let kept = get_not_pinned_pieces(&board, &4, moves);
    assert_eq!(
        vec![
            PossibleMove { from: 12, to: 20, promoted_to: None },
            PossibleMove { from: 12, to: 60, promoted_to: None },
            PossibleMove { from: 4, to: 5, promoted_to: None },
        ],
        kept
    );
}

#[test]
fn unreadable_position_is_refused() {
    assert!(is_readable_position("rnbqkbnr/pppppppp/8/8/8/8/PPPPPPPP/RNBQKBNR w KQkq - 0 1"));
    assert!(!is_readable_position("8/8/8/8/8/8/8/8/8"));
    assert!(!is_readable_position("9K"));
    assert!(is_readable_position("9/9/9"));
    let mut board = Chessboard { ..Default::default() };
    let before = board.zobrist_key;
    assert!(!board.try_create_position_from_input_string(String::from("rnbqkbnr/8/8/8/8/8/8/8/K")));
    assert_eq!(before, board.zobrist_key);
    assert!(board.try_create_position_from_input_string(String::from("8/8/8/8/8/8/8/K6k b - - 0 1")));
    assert_eq!(Color::Black, board.current_move);
}

#[test]
fn letters_beyond_ascii() {
    assert!(char_is_alphabetic('é'));
    assert!(char_is_lowercase('é'));
    assert!(char_is_alphabetic('Ä'));
    assert!(!char_is_lowercase('Ä'));
    assert!(!char_is_alphabetic('→'));
    assert!(char_is_alphabetic('q') && !char_is_alphabetic('3'));
}

#[test]
fn king_location_mirrors() {
    assert_eq!(KingPosition::LEFT, check_where_king_is_located(1, false));
    assert_eq!(KingPosition::LEFT, check_where_king_is_located(62, true));
    assert_eq!(KingPosition::RIGHT, check_where_king_is_located(57, true));
    assert_eq!(KingPosition::CENTER, check_where_king_is_located(4, false));
    for square in 0..64usize {
        assert_eq!(check_where_king_is_located(square, true), check_where_king_is_located(63 - square, false));
        assert_eq!(square, get_position(get_position(square, Color::Black), Color::Black));
    }
    let safety = init_king_safety_bitboards();
    assert_eq!(vec![8, 9, 10], safety[0][1].get_used_fields());
    assert_eq!(vec![48, 49, 50], safety[1][2].get_used_fields());
    for side in 0..3 {
        let white: Vec<usize> = safety[0][side].get_used_fields().into_iter().map(|s| 63 - s).rev().collect();
        assert_eq!(white, safety[1][side].get_used_fields());
    }
}

#[test]
fn magic_tables_give_the_attacks() {
    let rook_boards = init_rook_magic_arrays();
    let rook_tables = init_rook_magic_moves_array();
    let bishop_boards = init_bishop_magic_arrays();
    let bishop_tables = init_bishop_magic_moves_array();
    let occupations = [0u64, 0x0000_0010_2000_4400, 0xffff_0000_0000_ffff, 0x0081_4224_1800_0000];
    for square in 0..64usize {
        assert!(rook_boards[square].index >= 52);
        assert!(bishop_boards[square].index >= 55);
        for occupied in occupations {
            let blockers = Bitboard { board: occupied };
            let rook = rook_tables[square][get_magic_index(blockers, &rook_boards[square])];
            assert_eq!(rook_attacks_from(square, blockers).board, rook.board);
            let bishop = bishop_tables[square][get_magic_index(blockers, &bishop_boards[square])];
            assert_eq!(bishop_attacks_from(square, blockers).board, bishop.board);
        }
    }
}

#[test]
fn move_generation_needs_both_kings_and_steppable_pawns() {
    let board = Chessboard { ..Default::default() };
    assert!(can_generate_moves(&board));
    let mut no_black_king = Chessboard { ..Default::default() };
    assert!(no_black_king.try_create_position_from_input_string(String::from("8/8/8/8/8/8/8/K7 w - - 0 1")));
    assert!(!can_generate_moves(&no_black_king));
    no_black_king.figures[Color::Black as usize][Piece::King as usize].set_field(63);
    assert!(can_generate_moves(&no_black_king));
    no_black_king.figures[Color::White as usize][Piece::Pawn as usize].set_field(60);
    assert!(!can_generate_moves(&no_black_king));
}

#[test]
fn unsafe_moves_are_recognised() {
    let mut board = Chessboard::empty(Color::White);
    assert!(!board.is_move_safe(64, 0, None));
    assert!(board.is_move_safe(8, 16, None));
    board.en_passant = Some(0);
    board.figures[Color::White as usize][Piece::Pawn as usize].set_field(16);
    assert!(!board.is_move_safe(16, 8, None));
    assert!(board.is_move_safe(16, 8, Some(Promotion::Queen)));
    board.en_passant = Some(70);
    assert!(!board.is_move_safe(16, 24, None));
}

#[test]
fn counting_is_checked() {
    let board = Chessboard { ..Default::default() };
    assert_eq!(Some(400), try_count_moves(&board, 2, &HashMap::new()));
    assert_eq!(None, try_count_moves(&Chessboard::empty(Color::White), 2, &HashMap::new()));
}

#[test]
fn position_commands_are_checked() {
    assert!(position_commands_are_playable(&vec!["position", "startpos", "moves", "e2e4", "e7e5"]));
    assert!(position_commands_are_playable(&vec!["position", "startpos", "moves", "not", "a", "move"]));
}

#[test]
fn clock_values_are_checked() {
    assert!(time_is_in_range(&vec!["go", "wtime", "1000"], "wtime", "winc"));
    assert!(!time_is_in_range(&vec!["go", "movetime", "50"], "wtime", "winc"));
    assert!(!time_is_in_range(&vec!["go", "movestogo", "18446744073709551615"], "wtime", "winc"));
    assert!(!time_is_in_range(&vec!["go", "wtime", "40", "winc", "18446744073709551615"], "wtime", "winc"));
}

#[test]
fn candidate_magics_are_tried() {
    let boards = init_rook_magic_arrays();
    let tables = init_rook_magic_moves_array();
    let moves_by_field = get_moves_for_each_field();
    for square in [0usize, 27, 63] {
        let table = create_possible_moves_vec(&boards[square], square, &moves_by_field, true).unwrap();
        let table: Vec<u64> = table.into_iter().map(|b| b.board).collect();
        let expected: Vec<u64> = tables[square].iter().map(|b| b.board).collect();
        assert_eq!(expected, table);
    }
    let useless = MagicBitboard { magic_key: 0, ..boards[0] };
    assert!(create_possible_moves_vec(&useless, 0, &moves_by_field, true).is_none());
    assert_eq!(0, MagicBitboard::default().index);
}

#[test]
fn predefined_magics_pass_the_check() {
    let moves_by_field = get_moves_for_each_field();
    for is_rook in [true, false] {
        let boards = if is_rook { init_rook_magic_arrays() } else { init_bishop_magic_arrays() };
        let tables = if is_rook { init_rook_magic_moves_array() } else { init_bishop_magic_moves_array() };
        for square in 0..64usize {
            let checked = create_possible_moves_vec(&boards[square], square, &moves_by_field, is_rook);
            let checked: Vec<u64> = checked.unwrap().into_iter().map(|b| b.board).collect();
            let built: Vec<u64> = tables[square].iter().map(|b| b.board).collect();
            assert_eq!(built, checked);
            assert_eq!(1usize << (64 - boards[square].index), built.len());
            assert_eq!(64 - boards[square].index as usize, boards[square].relevant_fields.get_used_fields().len());
        }
    }
}

#[test]
fn passed_pawn_files() {
    let rows = get_passed_pawn_rows();
    assert_eq!(0x0303_0303_0303_0303u64, rows[0].board);
    assert_eq!(0x0e0e_0e0e_0e0e_0e0eu64, rows[2].board);
    assert_eq!(0xc0c0_c0c0_c0c0_c0c0u64, rows[7].board);
}

#[test]
fn opening_book_lines() {
    assert!(is_position_line("pos rnbqkbnr/pppppppp/8/8/8/8/PPPPPPPP/RNBQKBNR w KQkq - 0 1"));
    assert!(!is_position_line("e2e4 120"));
    assert_eq!("8/8/8/8/8/8/8/K6k w - - 0 1", position_of_line("pos 8/8/8/8/8/8/8/K6k w - - 0 1"));
    assert_eq!("", position_of_line("pos"));
    assert!(is_opening_move_line("e2e4 120"));
    assert!(!is_opening_move_line("e0e4"));
    assert!(!is_opening_move_line("e2"));
    assert_eq!((12, 28), get_position_from_input(String::from("e2e4 120")));
}

#[test]
fn uci_lines_map_to_actions() {
    assert_eq!(UciAction::Identify, map_input_to_action(&vec!["uci"]));
    assert_eq!(UciAction::ReportReady, map_input_to_action(&vec!["isready"]));
    assert_eq!(UciAction::NewGame, map_input_to_action(&vec!["ucinewgame"]));
    assert_eq!(UciAction::SetPosition, map_input_to_action(&vec!["position", "startpos", "moves", "e2e4"]));
    assert_eq!(UciAction::Search, map_input_to_action(&vec!["go", "wtime", "1000"]));
    assert_eq!(UciAction::Debug, map_input_to_action(&vec!["debug"]));
    assert_eq!(UciAction::Quit, map_input_to_action(&vec!["quit"]));
    assert_eq!(UciAction::Unknown, map_input_to_action(&vec![]));
    assert_eq!(UciAction::Unknown, map_input_to_action(&vec!["stop"]));
    assert_eq!(UciAction::Unknown, map_input_to_action(&vec!["Go"]));
}

#[test]
fn relevant_squares_decide_the_attacks() {
    let rook_boards = init_rook_magic_arrays();
    let bishop_boards = init_bishop_magic_arrays();
    let occupations = [0xffff_ffff_ffff_ffffu64, 0x8100_0000_0000_0081, 0x0000_0010_2000_4400, 0xff81_8181_8181_81ff];
    for square in 0..64usize {
        for occupied in occupations {
            let rook_mask = rook_boards[square].relevant_fields.board;
            let bishop_mask = bishop_boards[square].relevant_fields.board;
            assert_eq!(
                rook_attacks_from(square, Bitboard { board: occupied }).board,
                rook_attacks_from(square, Bitboard { board: occupied & rook_mask }).board
            );
            assert_eq!(
                bishop_attacks_from(square, Bitboard { board: occupied }).board,
                bishop_attacks_from(square, Bitboard { board: occupied & bishop_mask }).board
            );
        }
    }
    assert_eq!(0x0001_0101_0101_017eu64, rook_boards[0].relevant_fields.board);
}

#[test]
fn king_never_moves_into_attack() {
    let board = Chessboard::empty(Color::White);
    let attacked = Bitboard { board: (1u64 << 35) | (1u64 << 36) | (1u64 << 18) };
    let mut moves = Vec::new();
    rusty_rook::figures::king::get_possible_king_moves(&board, 27, Color::White, attacked, &mut moves);
    let targets: Vec<usize> = moves.iter().map(|m| m.to).collect();
    assert_eq!(vec![19, 20, 26, 28, 34], targets);
    for m in &moves {
        assert!(!attacked.field_is_used(m.to));
    }
}

#[test]
fn opening_book_is_built_from_its_lines() {
    let start = "pos rnbqkbnr/pppppppp/8/8/8/8/PPPPPPPP/RNBQKBNR w KQkq - 0 1";
    let after_e4 = "pos rnbqkbnr/pppppppp/8/8/4P3/8/PPPP1PPP/RNBQKBNR b KQkq - 0 1";
    let lines: Vec<String> = vec!["c2c4", start, "e2e4", "d2d4", after_e4, "e7e5"]
        .into_iter()
        .map(String::from)
        .collect();
    let book = rusty_rook::helper::opening::create_opening_map(lines).unwrap();
    let start_key = Chessboard { ..Default::default() }.zobrist_key;
    let mut board = Chessboard { ..Default::default() };
    assert!(board.try_create_position_from_input_string(String::from(&after_e4[4..])));
    let e4_key = board.zobrist_key;
    assert_eq!(2, book.len());
    let start_moves: Vec<(usize, usize)> = book.get(&start_key).unwrap().iter().map(|m| (m.from, m.to)).collect();
    assert_eq!(vec![(12, 28), (11, 27)], start_moves);
    let e4_moves: Vec<(usize, usize)> = book.get(&e4_key).unwrap().iter().map(|m| (m.from, m.to)).collect();
    assert_eq!(vec![(52, 36)], e4_moves);
    let unreadable: Vec<String> = vec![String::from(start), String::from("e2")];
    assert!(rusty_rook::helper::opening::create_opening_map(unreadable).is_none());
    let bad_position: Vec<String> = vec![String::from("pos 8/8/8/8/8/8/8/8/8")];
    assert!(rusty_rook::helper::opening::create_opening_map(bad_position).is_none());
}

#[test]
fn best_moves_table_puts_its_move_first() {
    let board = Chessboard { ..Default::default() };
    let mut best_moves = HashMap::new();
    let e4 = PossibleMove { from: 12, to: 28, promoted_to: None };
    best_moves.insert(board.zobrist_key, e4);
    let (moves, _) = get_valid_moves_in_position(&board, true, &best_moves);
    assert_eq!(20, moves.len());
    assert_eq!(e4, moves[0]);
    assert_eq!(20, count_moves(&board, 1, &best_moves));
    assert_eq!(400, count_moves(&board, 2, &best_moves));
    let foreign = PossibleMove { from: 12, to: 36, promoted_to: None };
    let mut odd_moves = HashMap::new();
    odd_moves.insert(board.zobrist_key, foreign);
    let (moves, _) = get_valid_moves_in_position(&board, true, &odd_moves);
    assert_eq!(21, moves.len());
    assert_eq!(foreign, moves[0]);
    assert_eq!(Some(21), try_count_moves(&board, 1, &odd_moves));
}

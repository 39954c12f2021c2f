use vstd::prelude::*;

verus! {

/// The sections of a FEN string, in the order they are read.
#[derive(PartialEq, Eq, Structural, Clone, Copy, Debug)]
pub enum FEN {
    FIGURES,
    MOVE,
    CASTLING,
    ENPASSANT,
    // as of now we dont use played moves
    IGNORED,
}

impl FEN {
    /// The section of a FEN string that follows this one.
    pub fn update_to_next_state(self) -> (r: FEN)
        ensures
            r == match self {
                FEN::FIGURES => FEN::MOVE,
                FEN::MOVE => FEN::CASTLING,
                FEN::CASTLING => FEN::ENPASSANT,
                FEN::ENPASSANT => FEN::IGNORED,
                FEN::IGNORED => FEN::IGNORED,
            },
    {
        match self {
            FEN::FIGURES => FEN::MOVE,
            FEN::MOVE => FEN::CASTLING,
            FEN::CASTLING => FEN::ENPASSANT,
            FEN::ENPASSANT => FEN::IGNORED,
            FEN::IGNORED => FEN::IGNORED,
        }
    }
}

} // verus!

use crate::board::bitboard::Bitboard;
use crate::board::board::{Chessboard, spec_add_piece, is_empty_board, piece_bits, lemma_add_piece_bits};
use crate::board::bitboard::bit;
use crate::board::castle::Castle;
use crate::engine::transposition::zobrist::{ZOBRIST_CURRENT_MOVE, zobrist_castle, zobrist_piece};
use crate::figures::color::Color;
use crate::figures::piece::Piece;

verus! {

/// Whether `c` has the Unicode Alphabetic property, as `char::is_alphabetic` reports it.
pub uninterp spec fn unicode_alphabetic(c: char) -> bool;

/// Whether `c` has the Unicode Lowercase property, as `char::is_lowercase` reports it.
pub uninterp spec fn unicode_lowercase(c: char) -> bool;

/// Calls `char::is_alphabetic`; its result is named `unicode_alphabetic`, nothing more is claimed.
#[verifier::external_body]
fn std_is_alphabetic(c: char) -> (r: bool)
    ensures
        r == unicode_alphabetic(c),
{
    c.is_alphabetic()
}

/// Calls `char::is_lowercase`; its result is named `unicode_lowercase`, nothing more is claimed.
#[verifier::external_body]
fn std_is_lowercase(c: char) -> (r: bool)
    ensures
        r == unicode_lowercase(c),
{
    c.is_lowercase()
}

/// `c` is an ASCII character.
pub open spec fn is_ascii_char(c: char) -> bool {
    (c as u32) < 128
}

/// `c` is one of the digits 0 to 9.
pub open spec fn is_ascii_digit(c: char) -> bool {
    '0' <= c <= '9'
}

/// Letters: for ASCII the letters a-z and A-Z, beyond ASCII the Unicode Alphabetic property.
pub open spec fn fen_is_alphabetic(c: char) -> bool {
    if is_ascii_char(c) {
        ('a' <= c <= 'z') || ('A' <= c <= 'Z')
    } else {
        unicode_alphabetic(c)
    }
}

/// Lowercase: for ASCII the letters a-z, beyond ASCII the Unicode Lowercase property.
pub open spec fn fen_is_lowercase(c: char) -> bool {
    if is_ascii_char(c) {
        'a' <= c <= 'z'
    } else {
        unicode_lowercase(c)
    }
}

/// Whether `c` is a letter (see `fen_is_alphabetic`).
pub fn char_is_alphabetic(c: char) -> (r: bool)
    ensures
        r == fen_is_alphabetic(c),
{
    if (c as u32) < 128 {
        ('a' <= c && c <= 'z') || ('A' <= c && c <= 'Z')
    } else {
        std_is_alphabetic(c)
    }
}

/// Whether `c` is a lowercase letter (see `fen_is_lowercase`).
pub fn char_is_lowercase(c: char) -> (r: bool)
    ensures
        r == fen_is_lowercase(c),
{
    if (c as u32) < 128 {
        'a' <= c && c <= 'z'
    } else {
        std_is_lowercase(c)
    }
}

/// The piece a FEN letter stands for, ignoring case; any other letter is read as a knight.
pub open spec fn fen_figure_from_char(c: char) -> Piece {
    if c == 'K' || c == 'k' {
        Piece::King
    } else if c == 'P' || c == 'p' {
        Piece::Pawn
    } else if c == 'Q' || c == 'q' {
        Piece::Queen
    } else if c == 'B' || c == 'b' {
        Piece::Bishop
    } else if c == 'R' || c == 'r' {
        Piece::Rook
    } else {
        Piece::Knight
    }
}

/// The board a position string is read onto: no pieces, no rights, white to move, hash 0.
pub open spec fn spec_empty_board() -> Chessboard {
    Chessboard {
        positions: Bitboard { board: 0 },
        used_positions: [Bitboard { board: 0 }, Bitboard { board: 0 }],
        figures: [
            [
                Bitboard { board: 0 },
                Bitboard { board: 0 },
                Bitboard { board: 0 },
                Bitboard { board: 0 },
                Bitboard { board: 0 },
                Bitboard { board: 0 },
            ],
            [
                Bitboard { board: 0 },
                Bitboard { board: 0 },
                Bitboard { board: 0 },
                Bitboard { board: 0 },
                Bitboard { board: 0 },
                Bitboard { board: 0 },
            ],
        ],
        current_move: Color::White,
        en_passant: None,
        castle: Castle {
            white_castle_long: false,
            white_castle_short: false,
            black_castle_long: false,
            black_castle_short: false,
        },
        zobrist_key: 0,
    }
}


/// Every empty board with white to move is the board a position string is read onto.
pub proof fn lemma_empty_board_value(b: Chessboard)
    requires
        is_empty_board(b),
    ensures
        b == spec_empty_board(),
{
    broadcast use vstd::array::group_array_axioms;
    let e = spec_empty_board();
    let z = Bitboard { board: 0 };
    assert(e.used_positions@ == seq![z, z]);
    assert(e.figures@ == seq![e.figures[0], e.figures[1]]);
    assert(e.figures[0]@ == seq![z, z, z, z, z, z]);
    assert(e.figures[1]@ == seq![z, z, z, z, z, z]);
    assert(b.positions == e.positions);
    assert(b.used_positions[0].board == 0);
    assert(b.used_positions[1].board == 0);
    assert(b.used_positions[0] == e.used_positions[0]);
    assert(b.used_positions[1] == e.used_positions[1]);
    assert(b.used_positions =~= e.used_positions);
    assert forall|c: int| 0 <= c < 2 implies b.figures[c] =~= e.figures[c] by {
        assert forall|p: int| 0 <= p < 6 implies b.figures[c][p] == e.figures[c][p] by {
            assert(b.figures[c][p].board == 0);
        }
    }
    assert(b.figures =~= e.figures);
    assert(b.castle == e.castle);
}

/// The state while reading a FEN string: the board so far, the square the next piece goes to,
/// and whether the piece placement section is over.
pub type FenState = (Chessboard, int, bool);

/// Effect of one character of the side-to-move and castling sections.
pub open spec fn fen_game_state_step(b: Chessboard, c: char) -> Chessboard {
    let b1 = if c == 'w' { Chessboard { current_move: Color::White, ..b } } else { b };
    let b2 = if c == 'b' {
        Chessboard { zobrist_key: b1.zobrist_key ^ ZOBRIST_CURRENT_MOVE, current_move: Color::Black, ..b1 }
    } else {
        b1
    };
    let b3 = if c == 'K' {
        Chessboard {
            castle: Castle { white_castle_short: true, ..b2.castle },
            zobrist_key: b2.zobrist_key ^ zobrist_castle(0),
            ..b2
        }
    } else {
        b2
    };
    let b4 = if c == 'Q' {
        Chessboard {
            castle: Castle { white_castle_long: true, ..b3.castle },
            zobrist_key: b3.zobrist_key ^ zobrist_castle(1),
            ..b3
        }
    } else {
        b3
    };
    let b5 = if c == 'k' {
        Chessboard {
            castle: Castle { black_castle_short: true, ..b4.castle },
            zobrist_key: b4.zobrist_key ^ zobrist_castle(2),
            ..b4
        }
    } else {
        b4
    };
    if c == 'q' {
        Chessboard {
            castle: Castle { black_castle_long: true, ..b5.castle },
            zobrist_key: b5.zobrist_key ^ zobrist_castle(3),
            ..b5
        }
    } else {
        b5
    }
}

/// The square reached after the '/' and digit effects of `c` in the placement section.
pub open spec fn fen_square_after_skip(pos: int, c: char) -> int {
    let pos1 = if c == '/' { pos - 16 } else { pos };
    if is_ascii_digit(c) { pos1 + ((c as int) - ('0' as int)) } else { pos1 }
}

/// Effect of one character of the piece placement section: '/' goes down a rank, a digit skips
/// squares, a letter puts a piece (lowercase black) on the current square and moves on.
pub open spec fn fen_piece_step(b: Chessboard, pos: int, c: char) -> (Chessboard, int) {
    let pos2 = fen_square_after_skip(pos, c);
    if fen_is_alphabetic(c) {
        let piece = fen_figure_from_char(c);
        let color = if fen_is_lowercase(c) { Color::Black } else { Color::White };
        let b1 = spec_add_piece(b, color, piece, pos2);
        (Chessboard { zobrist_key: b1.zobrist_key ^ zobrist_piece(color, piece, pos2), ..b1 }, pos2 + 1)
    } else {
        (b, pos2)
    }
}

/// The reading state after one more character: the first space after the last rank ends the placement.
pub open spec fn fen_char_step(st: FenState, c: char) -> FenState {
    let (b, pos, fin) = st;
    if pos == 8 && c == ' ' && !fin {
        (b, pos, true)
    } else if fin {
        (fen_game_state_step(b, c), pos, fin)
    } else {
        let (b1, pos1) = fen_piece_step(b, pos, c);
        (b1, pos1, fin)
    }
}

/// Reading `c` with the placement at square `pos` (section over when `fin`) stays within the
/// board and usize range.
pub open spec fn fen_step_ok(pos: int, fin: bool, c: char) -> bool {
    if (pos == 8 && c == ' ' && !fin) || fin {
        true
    } else {
        &&& (c == '/' ==> pos >= 16)
        &&& (is_ascii_digit(c) ==> fen_square_after_skip(pos, c) <= usize::MAX)
        &&& (fen_is_alphabetic(c) ==> 0 <= fen_square_after_skip(pos, c) < 64)
    }
}

/// The placement square and section flag after reading `c`.
pub open spec fn fen_position_step(pos: int, fin: bool, c: char) -> (int, bool) {
    if pos == 8 && c == ' ' && !fin {
        (pos, true)
    } else if fin {
        (pos, fin)
    } else if fen_is_alphabetic(c) {
        (fen_square_after_skip(pos, c) + 1, fin)
    } else {
        (fen_square_after_skip(pos, c), fin)
    }
}

/// The state after reading the first `n` characters of `chars`, starting on a8 with an empty board.
pub open spec fn fen_scan(chars: Seq<char>, n: int) -> FenState
    decreases n,
{
    if n <= 0 {
        (spec_empty_board(), 56, false)
    } else {
        fen_char_step(fen_scan(chars, n - 1), chars[n - 1])
    }
}

/// Every character of `chars` can be read.
pub open spec fn fen_readable(chars: Seq<char>) -> bool {
    fen_readable_from(chars, 0, 56, false)
}

/// The characters from index `n` on can be read, starting at square `pos` (section over when `fin`).
pub open spec fn fen_readable_from(chars: Seq<char>, n: int, pos: int, fin: bool) -> bool
    decreases chars.len() - n,
{
    if n >= chars.len() || n < 0 {
        true
    } else {
        let (p1, f1) = fen_position_step(pos, fin, chars[n]);
        fen_step_ok(pos, fin, chars[n]) && fen_readable_from(chars, n + 1, p1, f1)
    }
}

/// The start position string can be read.
pub proof fn lemma_start_fen_readable()
    ensures
        fen_readable("rnbqkbnr/pppppppp/8/8/8/8/PPPPPPPP/RNBQKBNR w KQkq - 0 1"@),
{
    reveal_strlit("rnbqkbnr/pppppppp/8/8/8/8/PPPPPPPP/RNBQKBNR w KQkq - 0 1");
    reveal_with_fuel(fen_readable_from, 60);
}

/// The board a position string describes.
pub open spec fn spec_board_from_fen(chars: Seq<char>) -> Chessboard {
    fen_scan(chars, chars.len() as int).0
}

/// Whether the letter `l` is read, among the first `n` characters of `chars`, after the piece
/// placement section is over.
pub open spec fn read_after_placement(chars: Seq<char>, n: int, l: char) -> bool {
    exists|i: int| 0 <= i < n && (#[trigger] fen_scan(chars, i)).2 && chars[i] == l
}

proof fn lemma_castle_letters(chars: Seq<char>, n: int)
    requires
        0 <= n <= chars.len(),
    ensures
        fen_scan(chars, n).0.castle.white_castle_short == read_after_placement(chars, n, 'K'),
        fen_scan(chars, n).0.castle.white_castle_long == read_after_placement(chars, n, 'Q'),
        fen_scan(chars, n).0.castle.black_castle_short == read_after_placement(chars, n, 'k'),
        fen_scan(chars, n).0.castle.black_castle_long == read_after_placement(chars, n, 'q'),
    decreases n,
{
    if n > 0 {
        lemma_castle_letters(chars, n - 1);
        let st = fen_scan(chars, n - 1);
        let c = chars[n - 1];
        assert forall|l: char| #[trigger] read_after_placement(chars, n, l) == (read_after_placement(chars, n - 1, l) || (st.2 && c == l)) by {
            if read_after_placement(chars, n, l) {
                let i = choose|i: int| 0 <= i < n && (#[trigger] fen_scan(chars, i)).2 && chars[i] == l;
                if i < n - 1 {
                    assert(read_after_placement(chars, n - 1, l));
                }
            }
            if read_after_placement(chars, n - 1, l) {
                let i = choose|i: int| 0 <= i < n - 1 && (#[trigger] fen_scan(chars, i)).2 && chars[i] == l;
                assert(0 <= i < n && fen_scan(chars, i).2 && chars[i] == l);
            }
            if st.2 && c == l {
                assert(0 <= n - 1 < n && fen_scan(chars, n - 1).2 && chars[n - 1] == l);
            }
        }
        assert(read_after_placement(chars, n, 'K') == (read_after_placement(chars, n - 1, 'K') || (st.2 && c == 'K')));
        assert(read_after_placement(chars, n, 'Q') == (read_after_placement(chars, n - 1, 'Q') || (st.2 && c == 'Q')));
        assert(read_after_placement(chars, n, 'k') == (read_after_placement(chars, n - 1, 'k') || (st.2 && c == 'k')));
        assert(read_after_placement(chars, n, 'q') == (read_after_placement(chars, n - 1, 'q') || (st.2 && c == 'q')));
        if !(st.1 == 8 && c == ' ' && !st.2) && !st.2 {
            let pos2 = fen_square_after_skip(st.1, c);
            if fen_is_alphabetic(c) {
                let piece = fen_figure_from_char(c);
                let color = if fen_is_lowercase(c) { Color::Black } else { Color::White };
                assert(spec_add_piece(st.0, color, piece, pos2).castle == st.0.castle);
            }
        }
    } else {
        assert forall|l: char| !#[trigger] read_after_placement(chars, 0, l) by {}
    }
}

/// The castling rights of a board read from a position string are exactly the castling letters
/// read after the piece placement: white may castle short exactly when a 'K' is read there, long
/// when a 'Q' is, and black short when a 'k' is, long when a 'q' is.
pub proof fn law_castling_letters_give_rights(chars: Seq<char>)
    ensures
        spec_board_from_fen(chars).castle.white_castle_short == read_after_placement(chars, chars.len() as int, 'K'),
        spec_board_from_fen(chars).castle.white_castle_long == read_after_placement(chars, chars.len() as int, 'Q'),
        spec_board_from_fen(chars).castle.black_castle_short == read_after_placement(chars, chars.len() as int, 'k'),
        spec_board_from_fen(chars).castle.black_castle_long == read_after_placement(chars, chars.len() as int, 'q'),
{
    lemma_castle_letters(chars, chars.len() as int);
}

/// Whether, among the first `n` characters of `chars`, the last side letter ('w' or 'b') read
/// after the piece placement is a 'b'.
pub open spec fn black_named_last(chars: Seq<char>, n: int) -> bool {
    exists|i: int| 0 <= i < n && (#[trigger] fen_scan(chars, i)).2 && chars[i] == 'b' && forall|j: int|
        i < j < n && (#[trigger] fen_scan(chars, j)).2 ==> chars[j] != 'w'
}

proof fn lemma_side_letters(chars: Seq<char>, n: int)
    requires
        0 <= n <= chars.len(),
    ensures
        (fen_scan(chars, n).0.current_move == Color::Black) == black_named_last(chars, n),
    decreases n,
{
    if n > 0 {
        lemma_side_letters(chars, n - 1);
        let st = fen_scan(chars, n - 1);
        let c = chars[n - 1];
        if st.2 && c == 'b' {
            assert(black_named_last(chars, n)) by {
                assert(0 <= n - 1 < n && fen_scan(chars, n - 1).2 && chars[n - 1] == 'b');
            }
        } else if st.2 && c == 'w' {
            if black_named_last(chars, n) {
                let i = choose|i: int| 0 <= i < n && (#[trigger] fen_scan(chars, i)).2 && chars[i] == 'b' && forall|j: int|
                    i < j < n && (#[trigger] fen_scan(chars, j)).2 ==> chars[j] != 'w';
                assert(i != n - 1);
                assert(fen_scan(chars, n - 1).2);
            }
        } else {
            if black_named_last(chars, n) {
                let i = choose|i: int| 0 <= i < n && (#[trigger] fen_scan(chars, i)).2 && chars[i] == 'b' && forall|j: int|
                    i < j < n && (#[trigger] fen_scan(chars, j)).2 ==> chars[j] != 'w';
                assert(i < n - 1);
                assert(black_named_last(chars, n - 1));
            }
            if black_named_last(chars, n - 1) {
                let i = choose|i: int| 0 <= i < n - 1 && (#[trigger] fen_scan(chars, i)).2 && chars[i] == 'b' && forall|j: int|
                    i < j < n - 1 && (#[trigger] fen_scan(chars, j)).2 ==> chars[j] != 'w';
                assert forall|j: int| i < j < n && (#[trigger] fen_scan(chars, j)).2 implies chars[j] != 'w' by {
                    if j == n - 1 {
                        assert(st.2);
                    }
                }
                assert(black_named_last(chars, n));
            }
            if !(st.1 == 8 && c == ' ' && !st.2) && !st.2 {
                let pos2 = fen_square_after_skip(st.1, c);
                if fen_is_alphabetic(c) {
                    let piece = fen_figure_from_char(c);
                    let color = if fen_is_lowercase(c) { Color::Black } else { Color::White };
                    assert(spec_add_piece(st.0, color, piece, pos2).current_move == st.0.current_move);
                }
            }
        }
    } else {
        assert(!black_named_last(chars, 0));
    }
}

/// The side to move of a board read from a position string is black exactly when the last side
/// letter read after the piece placement is a 'b'; with no 'b' there, white moves.
pub proof fn law_side_letter_gives_side_to_move(chars: Seq<char>)
    ensures
        (spec_board_from_fen(chars).current_move == Color::Black) == black_named_last(chars, chars.len() as int),
{
    lemma_side_letters(chars, chars.len() as int);
}

/// The piece that a FEN letter names: K king, Q queen, R rook, B bishop, N knight, P pawn, in
/// either case.
pub open spec fn named_piece(l: char) -> Option<Piece> {
    if l == 'K' || l == 'k' {
        Some(Piece::King)
    } else if l == 'Q' || l == 'q' {
        Some(Piece::Queen)
    } else if l == 'R' || l == 'r' {
        Some(Piece::Rook)
    } else if l == 'B' || l == 'b' {
        Some(Piece::Bishop)
    } else if l == 'N' || l == 'n' {
        Some(Piece::Knight)
    } else if l == 'P' || l == 'p' {
        Some(Piece::Pawn)
    } else {
        None
    }
}

/// Along a readable string, the reading state after `n` characters can read the rest.
proof fn lemma_readable_scan(chars: Seq<char>, n: int)
    requires
        fen_readable(chars),
        0 <= n <= chars.len(),
    ensures
        fen_readable_from(chars, n, fen_scan(chars, n).1, fen_scan(chars, n).2),
    decreases n,
{
    if n > 0 {
        lemma_readable_scan(chars, n - 1);
        let st = fen_scan(chars, n - 1);
        let c = chars[n - 1];
        let (p1, f1) = fen_position_step(st.1, st.2, c);
        assert(fen_scan(chars, n).1 == p1 && fen_scan(chars, n).2 == f1);
    }
}

/// Once set while reading, a piece bit on a square of the board stays set to the end.
proof fn lemma_piece_stays(chars: Seq<char>, m: int, n: int, col: Color, k: Piece, q: int)
    requires
        fen_readable(chars),
        0 <= m <= n <= chars.len(),
        0 <= q < 64,
        bit(piece_bits(fen_scan(chars, m).0, col, k), q),
    ensures
        bit(piece_bits(fen_scan(chars, n).0, col, k), q),
    decreases n - m,
{
    if m < n {
        lemma_piece_stays(chars, m, n - 1, col, k, q);
        lemma_readable_scan(chars, n - 1);
        let st = fen_scan(chars, n - 1);
        let c = chars[n - 1];
        assert(fen_step_ok(st.1, st.2, c));
        if !(st.1 == 8 && c == ' ' && !st.2) && !st.2 {
            let pos2 = fen_square_after_skip(st.1, c);
            if fen_is_alphabetic(c) {
                let piece = fen_figure_from_char(c);
                let color = if fen_is_lowercase(c) { Color::Black } else { Color::White };
                lemma_add_piece_bits(st.0, color, piece, pos2, col, k, q);
            }
        }
    }
}

/// In a readable position string, every piece letter read in the piece placement puts that
/// piece on the square it is read for: an uppercase letter a white piece, a lowercase letter a
/// black one, of the kind the letter names; it is still there on the board read from the whole
/// string.
pub proof fn law_placement_letters_put_their_pieces(chars: Seq<char>, i: int)
    requires
        fen_readable(chars),
        0 <= i < chars.len(),
        !fen_scan(chars, i).2,
        named_piece(chars[i]) is Some,
    ensures
        bit(
            piece_bits(
                spec_board_from_fen(chars),
                if 'a' <= chars[i] <= 'z' { Color::Black } else { Color::White },
                named_piece(chars[i])->0,
            ),
            fen_square_after_skip(fen_scan(chars, i).1, chars[i]),
        ),
        0 <= fen_square_after_skip(fen_scan(chars, i).1, chars[i]) < 64,
{
    let st = fen_scan(chars, i);
    let c = chars[i];
    let q = fen_square_after_skip(st.1, c);
    let color = if 'a' <= c <= 'z' { Color::Black } else { Color::White };
    let piece = named_piece(c)->0;
    assert(fen_is_alphabetic(c) && fen_figure_from_char(c) == piece);
    assert(fen_is_lowercase(c) == ('a' <= c <= 'z'));
    lemma_readable_scan(chars, i);
    assert(fen_step_ok(st.1, st.2, c));
    assert(fen_scan(chars, i + 1) == fen_char_step(st, c));
    lemma_add_piece_bits(st.0, color, piece, q, color, piece, q);
    lemma_piece_stays(chars, i + 1, chars.len() as int, color, piece, q);
}

} // verus!

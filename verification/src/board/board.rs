use vstd::prelude::*;
use vstd::array::spec_array_update;
use crate::board::bitboard::{Bitboard, bit, lemma_bit_set, lemma_bit_clear};
use crate::board::castle::Castle;
use crate::board::promotion::{Promotion, convert_promotion_to_figure, spec_promotion_to_figure};
use crate::engine::transposition::zobrist::{
    ZOBRIST_CURRENT_MOVE, zobrist_castle, zobrist_castle_number, zobrist_en_passant,
    zobrist_en_passant_number, zobrist_piece, zobrist_piece_number,
};
use crate::board::fen::{
    char_is_alphabetic, char_is_lowercase, fen_figure_from_char, fen_readable, fen_scan,
    lemma_empty_board_value, spec_board_from_fen, fen_char_step, fen_step_ok, fen_readable_from,
    lemma_start_fen_readable,
};
use crate::helper::movement::{figure_can_move_left, figure_can_move_right};
use crate::helper::position_to_usize::{get_validated_position_from_input, spec_parse_uci};
use crate::engine::transposition::zobrist::ZOBRIST_SEED;
use vstd::string::*;
use crate::figures::color::Color;
use crate::figures::piece::Piece;

verus! {

broadcast use vstd::array::group_array_axioms;

#[derive(Clone, Copy)]
pub struct Chessboard {
    pub positions: Bitboard,
    pub used_positions: [Bitboard; 2],
    pub figures: [[Bitboard; 6]; 2],
    pub current_move: Color,
    // possible field with figure that can be taken en passant
    pub en_passant: Option<usize>,
    pub castle: Castle,
    pub zobrist_key: u64,
}

/// The bits of `color`'s pieces of kind `piece`.
pub open spec fn piece_bits(b: Chessboard, color: Color, piece: Piece) -> u64 {
    b.figures[color.idx()][piece.idx()].board
}

/// The bits of all of `color`'s pieces.
pub open spec fn used_bits(b: Chessboard, color: Color) -> u64 {
    b.used_positions[color.idx()].board
}

/// `b` with the bits of `color`'s `piece` replaced by `v`.
pub open spec fn with_piece_bits(b: Chessboard, color: Color, piece: Piece, v: u64) -> Chessboard {
    Chessboard {
        figures: spec_array_update(
            b.figures,
            color.idx(),
            spec_array_update(b.figures[color.idx()], piece.idx(), Bitboard { board: v }),
        ),
        ..b
    }
}

/// `b` with the bits of all of `color`'s pieces replaced by `v`.
pub open spec fn with_used_bits(b: Chessboard, color: Color, v: u64) -> Chessboard {
    Chessboard {
        used_positions: spec_array_update(b.used_positions, color.idx(), Bitboard { board: v }),
        ..b
    }
}

/// `b` with a `piece` of `color` taken off square `pos` (the hash toggles that piece).
pub open spec fn spec_remove_piece(b: Chessboard, color: Color, piece: Piece, pos: int) -> Chessboard {
    let mask = !(1u64 << (pos as u64));
    let b1 = with_piece_bits(b, color, piece, piece_bits(b, color, piece) & mask);
    let b2 = with_used_bits(b1, color, used_bits(b, color) & mask);
    Chessboard {
        positions: Bitboard { board: b.positions.board & mask },
        zobrist_key: b.zobrist_key ^ zobrist_piece(color, piece, pos),
        ..b2
    }
}

/// `b` with a `piece` of `color` put on square `pos` (the hash toggles that piece).
pub open spec fn spec_add_piece(b: Chessboard, color: Color, piece: Piece, pos: int) -> Chessboard {
    let mask = 1u64 << (pos as u64);
    let b1 = with_piece_bits(b, color, piece, piece_bits(b, color, piece) | mask);
    let b2 = with_used_bits(b1, color, used_bits(b, color) | mask);
    Chessboard {
        positions: Bitboard { board: b.positions.board | mask },
        zobrist_key: b.zobrist_key ^ zobrist_piece(color, piece, pos),
        ..b2
    }
}

/// The kind of `color`'s piece on `pos`, checking pawn, knight, bishop, rook, queen, king in turn.
pub open spec fn spec_type_of_figure(b: Chessboard, color: Color, pos: int) -> Option<Piece> {
    if bit(piece_bits(b, color, Piece::Pawn), pos) {
        Some(Piece::Pawn)
    } else if bit(piece_bits(b, color, Piece::Knight), pos) {
        Some(Piece::Knight)
    } else if bit(piece_bits(b, color, Piece::Bishop), pos) {
        Some(Piece::Bishop)
    } else if bit(piece_bits(b, color, Piece::Rook), pos) {
        Some(Piece::Rook)
    } else if bit(piece_bits(b, color, Piece::Queen), pos) {
        Some(Piece::Queen)
    } else if bit(piece_bits(b, color, Piece::King), pos) {
        Some(Piece::King)
    } else {
        None
    }
}

/// The pieces of the side not to move.
pub open spec fn opponents_bits(b: Chessboard) -> u64 {
    used_bits(b, b.current_move.other())
}

/// `b` with the turn passed to the other side (the hash toggles the side to move).
pub open spec fn spec_set_current_move(b: Chessboard) -> Chessboard {
    Chessboard {
        zobrist_key: b.zobrist_key ^ ZOBRIST_CURRENT_MOVE,
        current_move: b.current_move.other(),
        ..b
    }
}

/// A board with no pieces, no rights, no en passant square, white to move and hash 0.
pub open spec fn is_empty_board(b: Chessboard) -> bool {
    &&& b.positions.board == 0
    &&& forall|c: int| 0 <= c < 2 ==> #[trigger] b.used_positions[c].board == 0
    &&& forall|c: int, p: int| 0 <= c < 2 && 0 <= p < 6 ==> #[trigger] b.figures[c][p].board == 0
    &&& b.current_move == Color::White
    &&& b.en_passant is None
    &&& !b.castle.white_castle_long && !b.castle.white_castle_short
    &&& !b.castle.black_castle_long && !b.castle.black_castle_short
    &&& b.zobrist_key == 0
}

fn empty_castle() -> (c: Castle)
    ensures
        !c.white_castle_long && !c.white_castle_short && !c.black_castle_long && !c.black_castle_short,
{
    Castle {
        white_castle_long: false,
        white_castle_short: false,
        black_castle_long: false,
        black_castle_short: false,
    }
}

fn empty_figures() -> (f: [[Bitboard; 6]; 2])
    ensures
        forall|c: int, p: int| 0 <= c < 2 && 0 <= p < 6 ==> #[trigger] f[c][p].board == 0,
{
    let row = [Bitboard::new(), Bitboard::new(), Bitboard::new(), Bitboard::new(), Bitboard::new(), Bitboard::new()];
    [row, row]
}


/// `b` with the piece of `opponent_color` on `field` taken off, if it has one there.
pub open spec fn spec_remove_opponent_piece_from_field(b: Chessboard, field: int, opponent_color: Color) -> Chessboard {
    if !bit(opponents_bits(b), field) {
        b
    } else {
        match spec_type_of_figure(b, opponent_color, field) {
            Some(p) => spec_remove_piece(b, opponent_color, p, field),
            None => b,
        }
    }
}

/// `b` with castling rights `c` and hash `key`.
pub open spec fn with_castle(b: Chessboard, c: Castle, key: u64) -> Chessboard {
    Chessboard { castle: c, zobrist_key: key, ..b }
}

/// `color`'s piece on `from` (if any) moved to `to`, taking a piece of the other color there
/// when the side not to move has one on it.
pub open spec fn spec_relocate(b: Chessboard, color: Color, from: int, to: int) -> Chessboard {
    let b1 = spec_remove_opponent_piece_from_field(b, to, color.other());
    match spec_type_of_figure(b1, color, from) {
        Some(p) => spec_add_piece(spec_remove_piece(b1, color, p, from), color, p, to),
        None => b1,
    }
}

/// Castling rights lost when a white piece leaves `from` or captures on `to`.
pub open spec fn spec_white_rights_after(b: Chessboard, from: int, to: int) -> Chessboard {
    let c = b.castle;
    let z = b.zobrist_key;
    let b1 = if (from == 0 || from == 4 || from == 7) && (c.white_castle_long || c.white_castle_short) {
        if c.white_castle_short && from == 7 {
            with_castle(b, Castle { white_castle_short: false, ..c }, z ^ zobrist_castle(0))
        } else if c.white_castle_long && from == 0 {
            with_castle(b, Castle { white_castle_long: false, ..c }, z ^ zobrist_castle(1))
        } else if from == 4 {
            with_castle(
                b,
                Castle { white_castle_long: false, white_castle_short: false, ..c },
                z ^ zobrist_castle(0) ^ zobrist_castle(1),
            )
        } else {
            b
        }
    } else {
        b
    };
    let c1 = b1.castle;
    let z1 = b1.zobrist_key;
    if (to == 56 || to == 63) && (c1.black_castle_long || c1.black_castle_short) {
        if c1.black_castle_short && to == 63 {
            with_castle(b1, Castle { black_castle_short: false, ..c1 }, z1 ^ zobrist_castle(2))
        } else if c1.black_castle_long && to == 56 {
            with_castle(b1, Castle { black_castle_long: false, ..c1 }, z1 ^ zobrist_castle(3))
        } else {
            b1
        }
    } else {
        b1
    }
}

/// Castling rights lost when a black piece leaves `from` or captures on `to`.
pub open spec fn spec_black_rights_after(b: Chessboard, from: int, to: int) -> Chessboard {
    let c = b.castle;
    let z = b.zobrist_key;
    let b1 = if (from == 56 || from == 60 || from == 63) && (c.black_castle_long || c.black_castle_short) {
        if c.black_castle_short && from == 63 {
            with_castle(b, Castle { black_castle_short: false, ..c }, z ^ zobrist_castle(2))
        } else if c.black_castle_long && from == 56 {
            with_castle(b, Castle { black_castle_long: false, ..c }, z ^ zobrist_castle(3))
        } else if from == 60 {
            with_castle(
                b,
                Castle { black_castle_long: false, black_castle_short: false, ..c },
                z ^ zobrist_castle(2) ^ zobrist_castle(3),
            )
        } else {
            b
        }
    } else {
        b
    };
    let c1 = b1.castle;
    let z1 = b1.zobrist_key;
    if (to == 0 || to == 7) && (c1.white_castle_long || c1.white_castle_short) {
        if c1.white_castle_short && to == 7 {
            with_castle(b1, Castle { white_castle_short: false, ..c1 }, z1 ^ zobrist_castle(0))
        } else if c1.white_castle_long && to == 0 {
            with_castle(b1, Castle { white_castle_long: false, ..c1 }, z1 ^ zobrist_castle(1))
        } else {
            b1
        }
    } else {
        b1
    }
}

/// A white piece moved from `from` to `to`, with the castling rights that this costs.
pub open spec fn spec_move_white_figure(b: Chessboard, from: int, to: int) -> Chessboard {
    spec_white_rights_after(spec_relocate(b, Color::White, from, to), from, to)
}

/// A black piece moved from `from` to `to`, with the castling rights that this costs.
pub open spec fn spec_move_black_figure(b: Chessboard, from: int, to: int) -> Chessboard {
    spec_black_rights_after(spec_relocate(b, Color::Black, from, to), from, to)
}

/// Both castling rights of the side to move removed.
pub open spec fn spec_has_castled(b: Chessboard) -> Castle {
    match b.current_move {
        Color::White => Castle { white_castle_long: false, white_castle_short: false, ..b.castle },
        Color::Black => Castle { black_castle_long: false, black_castle_short: false, ..b.castle },
    }
}

/// White castles toward `new_field`: both white rights go and the rook moves beside the king.
#[verifier::opaque]
pub open spec fn spec_white_castle(b: Chessboard, new_field: int) -> Chessboard {
    let b1 = with_castle(b, spec_has_castled(b), b.zobrist_key ^ zobrist_castle(0) ^ zobrist_castle(1));
    let b2 = if new_field == 2 { spec_move_white_figure(b1, 0, 3) } else { b1 };
    if new_field == 6 { spec_move_white_figure(b2, 7, 5) } else { b2 }
}

/// Black castles toward `new_field`: both black rights go and the rook moves beside the king.
#[verifier::opaque]
pub open spec fn spec_black_castle(b: Chessboard, new_field: int) -> Chessboard {
    let b1 = with_castle(b, spec_has_castled(b), b.zobrist_key ^ zobrist_castle(2) ^ zobrist_castle(3));
    let b2 = if new_field == 58 { spec_move_black_figure(b1, 56, 59) } else { b1 };
    if new_field == 62 { spec_move_black_figure(b2, 63, 61) } else { b2 }
}

/// Moves the rook when `old_field` to `new_field` is a castling move of a side that may castle.
#[verifier::opaque]
pub open spec fn spec_castle(b: Chessboard, old_field: int, new_field: int) -> Chessboard {
    if !((old_field == 4 && (new_field == 2 || new_field == 6)) || (old_field == 60 && (new_field == 58
        || new_field == 62))) {
        b
    } else if !b.castle.spec_can_castle(b.current_move) {
        b
    } else if old_field == 4 {
        spec_white_castle(b, new_field)
    } else {
        spec_black_castle(b, new_field)
    }
}

/// Whether moving from `old_field` to `new_field` takes the pawn on the en passant square
/// `e` from white's side.
pub open spec fn spec_is_en_passant_white(e: int, old_field: int, new_field: int) -> bool {
    if e + 8 != new_field {
        false
    } else if old_field % 8 != 0 && e + 1 == old_field {
        true
    } else {
        old_field % 8 != 7 && e - 1 == old_field
    }
}

/// Whether moving from `old_field` to `new_field` takes the pawn on the en passant square
/// `e` from black's side.
pub open spec fn spec_is_en_passant_black(e: int, old_field: int, new_field: int) -> bool {
    if e - 8 != new_field {
        false
    } else if old_field % 8 != 0 && e + 1 == old_field {
        true
    } else {
        old_field % 8 != 7 && e - 1 == old_field
    }
}

/// The white check reaches `e - 1` in usize arithmetic.
pub open spec fn en_passant_white_check_ok(e: int, old_field: int, new_field: int) -> bool {
    (e + 8 == new_field && !(old_field % 8 != 0 && e + 1 == old_field) && old_field % 8 != 7) ==> e >= 1
}

/// The en passant square is cleared from the hash, and a pawn taking en passant removes the passed pawn.
#[verifier::opaque]
pub open spec fn spec_check_and_execute_en_passant(b: Chessboard, old_field: int, new_field: int) -> Chessboard {
    match b.en_passant {
        None => b,
        Some(e) => {
            let b1 = Chessboard { zobrist_key: b.zobrist_key ^ zobrist_en_passant(e as int), ..b };
            if !bit(piece_bits(b1, b1.current_move, Piece::Pawn), old_field) {
                b1
            } else {
                let is_ep = match b1.current_move {
                    Color::White => spec_is_en_passant_white(e as int, old_field, new_field),
                    Color::Black => spec_is_en_passant_black(e as int, old_field, new_field),
                };
                if !is_ep {
                    b1
                } else {
                    spec_remove_piece(b1, b1.current_move.other(), Piece::Pawn, e as int)
                }
            }
        },
    }
}

/// A double pawn step records its target square for en passant; any other move clears it.
#[verifier::opaque]
pub open spec fn spec_possible_future_en_passant(b: Chessboard, old_field: int, new_field: int) -> Chessboard {
    let double_push = match b.current_move {
        Color::White => new_field == old_field + 16,
        Color::Black => old_field == new_field + 16,
    };
    if double_push && bit(piece_bits(b, b.current_move, Piece::Pawn), old_field) {
        Chessboard {
            en_passant: Some(new_field as usize),
            zobrist_key: b.zobrist_key ^ zobrist_en_passant(new_field),
            ..b
        }
    } else {
        Chessboard { en_passant: None, ..b }
    }
}

/// A pawn from `old_field` promotes on `new_field`, taking what stands there.
pub open spec fn spec_update_figure_to_promoted_one(b: Chessboard, old_field: int, new_field: int, promoted: Promotion) -> Chessboard {
    let b1 = spec_remove_piece(b, b.current_move, Piece::Pawn, old_field);
    let b2 = spec_remove_opponent_piece_from_field(b1, new_field, b1.current_move.other());
    spec_add_piece(b2, b2.current_move, spec_promotion_to_figure(promoted), new_field)
}

/// The board after the side to move plays `from` to `to` (promoting to `promoted_to`):
/// castling moves the rook too, an en passant capture removes the passed pawn, a double pawn
/// step records its square for en passant, rights and hash are updated and the turn passes.
pub open spec fn spec_move_figure(b: Chessboard, from: int, to: int, promoted_to: Option<Promotion>) -> Chessboard {
    let moved = match promoted_to {
        Some(p) => {
            let b1 = spec_update_figure_to_promoted_one(b, from, to, p);
            match b1.en_passant {
                Some(e) => Chessboard {
                    zobrist_key: b1.zobrist_key ^ zobrist_en_passant(e as int),
                    en_passant: None,
                    ..b1
                },
                None => b1,
            }
        },
        None => {
            let b1 = spec_castle(b, from, to);
            let b2 = spec_check_and_execute_en_passant(b1, from, to);
            let b3 = spec_possible_future_en_passant(b2, from, to);
            match b3.current_move {
                Color::White => spec_move_white_figure(b3, from, to),
                Color::Black => spec_move_black_figure(b3, from, to),
            }
        },
    };
    spec_set_current_move(moved)
}

/// The move can be played without an out-of-range square or index.
pub open spec fn move_is_safe(b: Chessboard, from: int, to: int, promoted_to: Option<Promotion>) -> bool {
    &&& 0 <= from < 64
    &&& 0 <= to < 64
    &&& (b.en_passant matches Some(e) ==> e < 64)
    &&& (promoted_to is None ==> en_passant_check_ok(spec_castle(b, from, to), from, to))
}

/// The en passant test of a pawn move from `from` to `to` stays in usize range.
pub open spec fn en_passant_check_ok(b: Chessboard, from: int, to: int) -> bool {
    match b.en_passant {
        Some(e) => bit(piece_bits(b, b.current_move, Piece::Pawn), from) ==> match b.current_move {
            Color::White => en_passant_white_check_ok(e as int, from, to),
            Color::Black => e >= 8,
        },
        None => true,
    }
}

/// Whether every character of `position` can be read as part of a position string: the
/// placement never leaves the board and its square count stays in range.
pub fn is_readable_position(position: &str) -> (r: bool)
    ensures
        r == fen_readable(position@),
{
    let n = position.unicode_len();
    let mut pos: usize = 56;
    let mut fin = false;
    let mut i: usize = 0;
    while i < n
        invariant
            i <= n,
            n == position@.len(),
            fen_readable(position@) == fen_readable_from(position@, i as int, pos as int, fin),
        decreases n - i,
    {
        let c = position.get_char(i);
        if pos == 8 && c == ' ' && !fin {
            fin = true;
        } else if !fin {
            let mut next: usize = pos;
            if c == '/' {
                if next < 16 {
                    return false;
                }
                next = next - 16;
            }
            if '0' <= c && c <= '9' {
                let as_digit = (c as u32 - '0' as u32) as usize;
                if next > usize::MAX - as_digit {
                    return false;
                }
                next = next + as_digit;
            }
            if char_is_alphabetic(c) {
                if next >= 64 {
                    return false;
                }
                next = next + 1;
            }
            pos = next;
        }
        i = i + 1;
    }
    true
}

impl Chessboard {
    /// An empty board with `color` to move.
    pub fn empty(color: Color) -> (board: Chessboard)
        ensures
            is_empty_board(Chessboard { current_move: Color::White, ..board }),
            board.current_move == color,
    {
        let mut board = Chessboard {
            positions: Bitboard::new(),
            used_positions: [Bitboard::new(), Bitboard::new()],
            figures: empty_figures(),
            current_move: Color::White,
            en_passant: None,
            castle: empty_castle(),
            zobrist_key: 0,
        };
        board.current_move = color;
        board
    }

    fn set_empty(&mut self)
        ensures
            is_empty_board(*final(self)),
    {
        self.positions = Bitboard::new();
        self.used_positions = [Bitboard::new(), Bitboard::new()];
        self.figures = empty_figures();
        self.current_move = Color::White;
        self.en_passant = None;
        self.castle = empty_castle();
        self.zobrist_key = 0;
    }

    fn set_current_move(&mut self)
        ensures
            *final(self) == spec_set_current_move(*old(self)),
    {
        self.zobrist_key = self.zobrist_key ^ ZOBRIST_CURRENT_MOVE;
        match self.current_move {
            Color::Black => self.current_move = Color::White,
            Color::White => self.current_move = Color::Black,
        }
    }

    /// The board of `color`'s pieces of kind `piece`.
    pub fn get_pieces(&self, color: Color, piece: Piece) -> (r: &Bitboard)
        ensures
            r.board == piece_bits(*self, color, piece),
    {
        &self.figures[color.as_index()][piece.as_index()]
    }

    fn remove_piece(&mut self, color: Color, piece: Piece, position: usize)
        requires
            position < 64,
        ensures
            *final(self) == spec_remove_piece(*old(self), color, piece, position as int),
            final(self).en_passant == old(self).en_passant,
            final(self).current_move == old(self).current_move,
    {
        let c = color.as_index();
        let p = piece.as_index();
        self.figures[c][p].remove_field(position);
        self.used_positions[c].remove_field(position);
        self.positions.remove_field(position);
        self.zobrist_key = self.zobrist_key ^ zobrist_piece_number(color, piece, position);
        assert(self.figures =~= spec_remove_piece(*old(self), color, piece, position as int).figures);
        assert(self.used_positions =~= spec_remove_piece(*old(self), color, piece, position as int).used_positions);
    }

    fn add_piece(&mut self, color: Color, piece: Piece, position: usize)
        requires
            position < 64,
        ensures
            *final(self) == spec_add_piece(*old(self), color, piece, position as int),
            final(self).en_passant == old(self).en_passant,
            final(self).current_move == old(self).current_move,
    {
        let c = color.as_index();
        let p = piece.as_index();
        self.figures[c][p].set_field(position);
        self.used_positions[c].set_field(position);
        self.positions.set_field(position);
        self.zobrist_key = self.zobrist_key ^ zobrist_piece_number(color, piece, position);
        assert(self.figures =~= spec_add_piece(*old(self), color, piece, position as int).figures);
        assert(self.used_positions =~= spec_add_piece(*old(self), color, piece, position as int).used_positions);
    }

    fn get_type_of_figure(&self, color: Color, position: usize) -> (r: Option<Piece>)
        requires
            position < 64,
        ensures
            r == spec_type_of_figure(*self, color, position as int),
    {
        if self.get_pieces(color, Piece::Pawn).field_is_used(position) {
            return Some(Piece::Pawn);
        };
        if self.get_pieces(color, Piece::Knight).field_is_used(position) {
            return Some(Piece::Knight);
        };
        if self.get_pieces(color, Piece::Bishop).field_is_used(position) {
            return Some(Piece::Bishop);
        };
        if self.get_pieces(color, Piece::Rook).field_is_used(position) {
            return Some(Piece::Rook);
        };
        if self.get_pieces(color, Piece::Queen).field_is_used(position) {
            return Some(Piece::Queen);
        };
        if self.get_pieces(color, Piece::King).field_is_used(position) {
            return Some(Piece::King);
        };
        None
    }

    /// Whether `color` has a queen or a rook on `position`.
    pub fn is_queen_or_rook(&self, color: Color, position: usize) -> (r: bool)
        requires
            position < 64,
        ensures
            r == (bit(piece_bits(*self, color, Piece::Rook), position as int) || bit(
                piece_bits(*self, color, Piece::Queen),
                position as int,
            )),
    {
        self.get_pieces(color, Piece::Rook).field_is_used(position) || self.get_pieces(
            color,
            Piece::Queen,
        ).field_is_used(position)
    }

    /// Whether `color` has a queen or a bishop on `position`.
    pub fn is_queen_or_bishop(&self, color: Color, position: usize) -> (r: bool)
        requires
            position < 64,
        ensures
            r == (bit(piece_bits(*self, color, Piece::Bishop), position as int) || bit(
                piece_bits(*self, color, Piece::Queen),
                position as int,
            )),
    {
        self.get_pieces(color, Piece::Bishop).field_is_used(position) || self.get_pieces(
            color,
            Piece::Queen,
        ).field_is_used(position)
    }

    /// The pieces of the side not to move.
    pub fn get_opponents(&self) -> (r: &Bitboard)
        ensures
            r.board == opponents_bits(*self),
    {
        match self.current_move {
            Color::White => &self.used_positions[1],
            Color::Black => &self.used_positions[0],
        }
    }

    /// The side not to move.
    pub fn get_opponent_color(&self) -> (r: Color)
        ensures
            r == self.current_move.other(),
    {
        match self.current_move {
            Color::White => Color::Black,
            Color::Black => Color::White,
        }
    }

    /// The pieces of kind `piece` of the side not to move.
    pub fn get_opponent_piece(&self, piece: Piece) -> (r: &Bitboard)
        ensures
            r.board == piece_bits(*self, self.current_move.other(), piece),
    {
        match self.current_move {
            Color::White => &self.figures[1][piece.as_index()],
            Color::Black => &self.figures[0][piece.as_index()],
        }
    }

    /// The pieces of the side to move.
    pub fn get_positions_by_current_player(&self) -> (r: &Bitboard)
        ensures
            r.board == used_bits(*self, self.current_move),
    {
        &self.used_positions[self.current_move.as_index()]
    }

    fn remove_opponent_piece_from_field(&mut self, field: usize, opponent_color: Color)
        requires
            field < 64,
        ensures
            *final(self) == spec_remove_opponent_piece_from_field(*old(self), field as int, opponent_color),
            final(self).en_passant == old(self).en_passant,
            final(self).current_move == old(self).current_move,
    {
        // first check if there even is a opponent on this field
        if !self.get_opponents().field_is_used(field) {
            return;
        }
        if let Some(opponent_piece) = self.get_type_of_figure(opponent_color, field) {
            self.remove_piece(opponent_color, opponent_piece, field);
        }
    }

    fn relocate(&mut self, color: Color, from: usize, to: usize)
        requires
            from < 64,
            to < 64,
        ensures
            *final(self) == spec_relocate(*old(self), color, from as int, to as int),
            final(self).en_passant == old(self).en_passant,
            final(self).current_move == old(self).current_move,
    {
        let opponent = match color {
            Color::White => Color::Black,
            Color::Black => Color::White,
        };
        self.remove_opponent_piece_from_field(to, opponent);
        if let Some(piece) = self.get_type_of_figure(color, from) {
            self.remove_piece(color, piece, from);
            self.add_piece(color, piece, to);
        }
    }

    fn move_black_figure(&mut self, from: usize, to: usize)
        requires
            from < 64,
            to < 64,
        ensures
            *final(self) == spec_move_black_figure(*old(self), from as int, to as int),
            final(self).en_passant == old(self).en_passant,
            final(self).current_move == old(self).current_move,
    {
        self.relocate(Color::Black, from, to);
        if (from == 56 || from == 60 || from == 63) && self.castle.black_can_castle() {
            if self.castle.black_castle_short && from == 63 {
                self.castle.black_castle_short = false;
                self.zobrist_key = self.zobrist_key ^ zobrist_castle_number(2);
            } else if self.castle.black_castle_long && from == 56 {
                self.castle.black_castle_long = false;
                self.zobrist_key = self.zobrist_key ^ zobrist_castle_number(3);
            } else if self.castle.black_can_castle() && from == 60 {
                self.castle.black_castle_long = false;
                self.castle.black_castle_short = false;
                self.zobrist_key = self.zobrist_key ^ zobrist_castle_number(2);
                self.zobrist_key = self.zobrist_key ^ zobrist_castle_number(3);
            }
        }
        if (to == 0 || to == 7) && self.castle.white_can_castle() {
            if self.castle.white_castle_short && to == 7 {
                self.castle.white_castle_short = false;
                self.zobrist_key = self.zobrist_key ^ zobrist_castle_number(0);
            } else if self.castle.white_castle_long && to == 0 {
                self.castle.white_castle_long = false;
                self.zobrist_key = self.zobrist_key ^ zobrist_castle_number(1);
            }
        }
    }

    fn move_white_figure(&mut self, from: usize, to: usize)
        requires
            from < 64,
            to < 64,
        ensures
            *final(self) == spec_move_white_figure(*old(self), from as int, to as int),
            final(self).en_passant == old(self).en_passant,
            final(self).current_move == old(self).current_move,
    {
        self.relocate(Color::White, from, to);
        if (from == 0 || from == 4 || from == 7) && self.castle.white_can_castle() {
            if self.castle.white_castle_short && from == 7 {
                self.castle.white_castle_short = false;
                self.zobrist_key = self.zobrist_key ^ zobrist_castle_number(0);
            } else if self.castle.white_castle_long && from == 0 {
                self.castle.white_castle_long = false;
                self.zobrist_key = self.zobrist_key ^ zobrist_castle_number(1);
            } else if self.castle.white_can_castle() && from == 4 {
                self.castle.white_castle_long = false;
                self.castle.white_castle_short = false;
                self.zobrist_key = self.zobrist_key ^ zobrist_castle_number(0);
                self.zobrist_key = self.zobrist_key ^ zobrist_castle_number(1);
            }
        }
        if (to == 56 || to == 63) && self.castle.black_can_castle() {
            if self.castle.black_castle_short && to == 63 {
                self.castle.black_castle_short = false;
                self.zobrist_key = self.zobrist_key ^ zobrist_castle_number(2);
            } else if self.castle.black_castle_long && to == 56 {
                self.castle.black_castle_long = false;
                self.zobrist_key = self.zobrist_key ^ zobrist_castle_number(3);
            }
        }
    }

    fn black_castle(&mut self, new_field: usize)
        ensures
            *final(self) == spec_black_castle(*old(self), new_field as int),
            final(self).en_passant == old(self).en_passant,
            final(self).current_move == old(self).current_move,
    {
        proof {
            reveal(spec_black_castle);
        }
        let color = self.current_move;
        self.castle.set_has_castled(color);
        self.zobrist_key = self.zobrist_key ^ zobrist_castle_number(2);
        self.zobrist_key = self.zobrist_key ^ zobrist_castle_number(3);
        // long castle
        if new_field == 58 {
            self.move_black_figure(56, 59);
        }
        if new_field == 62 {
            self.move_black_figure(63, 61);
        }
    }

    fn white_castle(&mut self, new_field: usize)
        ensures
            *final(self) == spec_white_castle(*old(self), new_field as int),
            final(self).en_passant == old(self).en_passant,
            final(self).current_move == old(self).current_move,
    {
        proof {
            reveal(spec_white_castle);
        }
        let color = self.current_move;
        self.castle.set_has_castled(color);
        self.zobrist_key = self.zobrist_key ^ zobrist_castle_number(0);
        self.zobrist_key = self.zobrist_key ^ zobrist_castle_number(1);
        if new_field == 2 {
            self.move_white_figure(0, 3);
        }
        if new_field == 6 {
            self.move_white_figure(7, 5);
        }
    }

    fn castle(&mut self, old_field: usize, new_field: usize)
        ensures
            *final(self) == spec_castle(*old(self), old_field as int, new_field as int),
            final(self).en_passant == old(self).en_passant,
            final(self).current_move == old(self).current_move,
    {
        proof {
            reveal(spec_castle);
        }
        // not white - nor black castle
        // white castle 4 -> 2/6 || black castle 60 -> 58/62
        if !((old_field == 4 && (new_field == 2 || new_field == 6)) || ((old_field == 60) && (
        new_field == 58 || new_field == 62))) {
            return;
        }
        // side is not able to castle
        if !self.castle.can_castle(self.current_move) {
            return;
        }
        if old_field == 4 {
            self.white_castle(new_field);
        } else if old_field == 60 {
            self.black_castle(new_field);
        }
    }

    /// Whether `old_field` to `new_field` takes the pawn on the en passant square from black's side.
    pub fn is_en_passant_black(&mut self, old_field: usize, new_field: usize) -> (r: bool)
        requires
            old(self).en_passant matches Some(e) ==> e >= 8 && ((e - 8 == new_field && old_field % 8
                != 0) ==> e < usize::MAX),
        ensures
            *final(self) == *old(self),
            r == match old(self).en_passant {
                Some(e) => spec_is_en_passant_black(e as int, old_field as int, new_field as int),
                None => false,
            },
    {
        if let Some(possible_en_passant_field) = self.en_passant {
            // post en passant would be one column less than possible en passant"ed" pawn
            if possible_en_passant_field - 8 != new_field {
                return false;
            }
            if figure_can_move_left(&old_field) && possible_en_passant_field + 1 == old_field {
                return true;
            }
            if figure_can_move_right(&old_field) && possible_en_passant_field - 1 == old_field {
                return true;
            }
        }
        false
    }

    /// Whether `old_field` to `new_field` takes the pawn on the en passant square from white's side.
    pub fn is_en_passant_white(&mut self, old_field: usize, new_field: usize) -> (r: bool)
        requires
            old(self).en_passant matches Some(e) ==> e <= usize::MAX - 8 && en_passant_white_check_ok(
                e as int,
                old_field as int,
                new_field as int,
            ),
        ensures
            *final(self) == *old(self),
            r == match old(self).en_passant {
                Some(e) => spec_is_en_passant_white(e as int, old_field as int, new_field as int),
                None => false,
            },
    {
        if let Some(possible_en_passant_field) = self.en_passant {
            // post en passant would be one column more than possible en passant"ed" pawn
            if possible_en_passant_field + 8 != new_field {
                return false;
            }
            if figure_can_move_left(&old_field) && possible_en_passant_field + 1 == old_field {
                return true;
            }
            if figure_can_move_right(&old_field) && possible_en_passant_field - 1 == old_field {
                return true;
            }
        }
        false
    }

    fn check_and_execute_en_passant(&mut self, old_field: usize, new_field: usize)
        requires
            old_field < 64,
            old(self).en_passant matches Some(e) ==> e < 64,
            en_passant_check_ok(*old(self), old_field as int, new_field as int),
        ensures
            *final(self) == spec_check_and_execute_en_passant(*old(self), old_field as int, new_field as int),
            final(self).current_move == old(self).current_move,
    {
        proof {
            reveal(spec_check_and_execute_en_passant);
        }
        // no possible en passant no need to check any longer
        if self.en_passant.is_none() {
            return;
        }
        // we have none checked en_passant at this point
        let en_passanted_figure = self.en_passant.unwrap();
        // remove possible prev. en passant from zobrist
        self.zobrist_key = self.zobrist_key ^ zobrist_en_passant_number(en_passanted_figure);
        let pawns = self.get_pieces(self.current_move, Piece::Pawn);
        // check if figure moving is actually a pawn
        if !pawns.field_is_used(old_field) {
            return;
        }
        let is_en_passant = match self.current_move {
            Color::White => self.is_en_passant_white(old_field, new_field),
            Color::Black => self.is_en_passant_black(old_field, new_field),
        };
        if !is_en_passant {
            return;
        }
        let opponent = self.get_opponent_color();
        self.remove_piece(opponent, Piece::Pawn, en_passanted_figure);
    }

    fn possible_future_en_passant(&mut self, old_field: usize, new_field: usize)
        requires
            old_field < 64,
            new_field < 64,
        ensures
            *final(self) == spec_possible_future_en_passant(*old(self), old_field as int, new_field as int),
            final(self).current_move == old(self).current_move,
    {
        match self.current_move {
            Color::White => self.possible_white_en_passant(old_field, new_field),
            Color::Black => self.possible_black_en_passant(old_field, new_field),
        }
    }

    /// After a white double pawn step from `old_field`, black may take en passant on `new_field`.
    fn possible_white_en_passant(&mut self, old_field: usize, new_field: usize)
        requires
            old_field < 64,
            new_field < 64,
            old(self).current_move == Color::White,
        ensures
            *final(self) == spec_possible_future_en_passant(*old(self), old_field as int, new_field as int),
            final(self).current_move == old(self).current_move,
    {
        proof {
            reveal(spec_possible_future_en_passant);
        }
        if new_field == old_field + 16 {
            let white_pawns = self.get_pieces(Color::White, Piece::Pawn);
            if white_pawns.field_is_used(old_field) {
                self.en_passant = Some(new_field);
                self.zobrist_key = self.zobrist_key ^ zobrist_en_passant_number(new_field);
                return;
            }
        }
        self.en_passant = None;
    }

    /// After a black double pawn step from `old_field`, white may take en passant on `new_field`.
    fn possible_black_en_passant(&mut self, old_field: usize, new_field: usize)
        requires
            old_field < 64,
            new_field < 64,
            old(self).current_move == Color::Black,
        ensures
            *final(self) == spec_possible_future_en_passant(*old(self), old_field as int, new_field as int),
            final(self).current_move == old(self).current_move,
    {
        proof {
            reveal(spec_possible_future_en_passant);
        }
        if old_field == new_field + 16 {
            let black_pawns = self.get_pieces(Color::Black, Piece::Pawn);
            if black_pawns.field_is_used(old_field) {
                self.en_passant = Some(new_field);
                self.zobrist_key = self.zobrist_key ^ zobrist_en_passant_number(new_field);
                return;
            }
        }
        self.en_passant = None;
    }

    fn update_figure_to_promoted_one(&mut self, old_field: usize, new_field: usize, promoted_figure: Promotion)
        requires
            old_field < 64,
            new_field < 64,
        ensures
            *final(self) == spec_update_figure_to_promoted_one(*old(self), old_field as int, new_field as int, promoted_figure),
    {
        let color = self.current_move;
        self.remove_piece(color, Piece::Pawn, old_field);
        // if we captures a piece on the way remove it as well
        let opponent = self.get_opponent_color();
        self.remove_opponent_piece_from_field(new_field, opponent);
        let new_piece = convert_promotion_to_figure(promoted_figure);
        let color = self.current_move;
        self.add_piece(color, new_piece, new_field);
    }

    /// Plays `from` to `to` for the side to move, promoting a pawn to `promoted_to` if given.
    pub fn move_figure(&mut self, from: usize, to: usize, promoted_to: Option<Promotion>)
        requires
            move_is_safe(*old(self), from as int, to as int, promoted_to),
        ensures
            *final(self) == spec_move_figure(*old(self), from as int, to as int, promoted_to),
    {
        if let Some(promoted_figure) = promoted_to {
            self.promote(from, to, promoted_figure);
        } else {
            self.plain_move(from, to);
        }
        self.set_current_move();
    }

    fn promote(&mut self, from: usize, to: usize, promoted_figure: Promotion)
        requires
            from < 64,
            to < 64,
            old(self).en_passant matches Some(e) ==> e < 64,
        ensures
            spec_set_current_move(*final(self)) == spec_move_figure(*old(self), from as int, to as int, Some(promoted_figure)),
    {
        self.update_figure_to_promoted_one(from, to, promoted_figure);
        if let Some(en_passant) = self.en_passant {
            self.zobrist_key = self.zobrist_key ^ zobrist_en_passant_number(en_passant);
            self.en_passant = None;
        }
    }

    fn plain_move(&mut self, from: usize, to: usize)
        requires
            move_is_safe(*old(self), from as int, to as int, None),
        ensures
            spec_set_current_move(*final(self)) == spec_move_figure(*old(self), from as int, to as int, None),
    {
        // if move is caste move rook prior to moving king
        self.castle(from, to);
        // if move is en passant remove opponent (from field we did not move to!)
        self.check_and_execute_en_passant(from, to);
        // check for possible future en_passant options
        self.possible_future_en_passant(from, to);
        match self.current_move {
            Color::White => self.move_white_figure(from, to),
            Color::Black => self.move_black_figure(from, to),
        }
    }

    fn get_figure_from_char(&self, figure: char) -> (r: Piece)
        ensures
            r == fen_figure_from_char(figure),
    {
        if figure == 'K' || figure == 'k' {
            Piece::King
        } else if figure == 'P' || figure == 'p' {
            Piece::Pawn
        } else if figure == 'Q' || figure == 'q' {
            Piece::Queen
        } else if figure == 'B' || figure == 'b' {
            Piece::Bishop
        } else if figure == 'R' || figure == 'r' {
            Piece::Rook
        } else {
            Piece::Knight
        }
    }

    /// Sets up the position of a FEN string, e.g. "8/2p5/3p4/KP5r/1R3p1k/8/4P1P1/8 w - - 0 1".
    pub fn create_position_from_input_string(&mut self, position: String)
        requires
            fen_readable(position@),
        ensures
            *final(self) == spec_board_from_fen(position@),
    {
        self.set_empty();
        proof {
            lemma_empty_board_value(*self);
        }
        let s = position.as_str();
        let n = s.unicode_len();
        let mut current_position: usize = 56;
        let mut positions_finished = false;
        let mut i: usize = 0;
        while i < n
            invariant
                i <= n,
                n == position@.len(),
                s@ == position@,
                fen_readable_from(position@, i as int, current_position as int, positions_finished),
                (*self, current_position as int, positions_finished) == fen_scan(position@, i as int),
            decreases n - i,
        {
            let c = s.get_char(i);
            let ghost st = fen_scan(position@, i as int);
            assert(fen_step_ok(st.1, st.2, c));
            if current_position == 8 && c == ' ' && !positions_finished {
                positions_finished = true;
            } else if positions_finished {
                // handle base game state stuff
                if c == 'w' {
                    self.current_move = Color::White;
                }
                if c == 'b' {
                    self.zobrist_key = self.zobrist_key ^ ZOBRIST_CURRENT_MOVE;
                    self.current_move = Color::Black;
                }
                if c == 'K' {
                    self.castle.white_castle_short = true;
                    self.zobrist_key = self.zobrist_key ^ zobrist_castle_number(0);
                }
                if c == 'Q' {
                    self.castle.white_castle_long = true;
                    self.zobrist_key = self.zobrist_key ^ zobrist_castle_number(1);
                }
                if c == 'k' {
                    self.castle.black_castle_short = true;
                    self.zobrist_key = self.zobrist_key ^ zobrist_castle_number(2);
                }
                if c == 'q' {
                    self.castle.black_castle_long = true;
                    self.zobrist_key = self.zobrist_key ^ zobrist_castle_number(3);
                }
            } else {
                if c == '/' {
                    current_position = current_position - 16;
                }
                if '0' <= c && c <= '9' {
                    let as_digit = (c as u32 - '0' as u32) as usize;
                    current_position = current_position + as_digit;
                }
                if char_is_alphabetic(c) {
                    let piece = self.get_figure_from_char(c);
                    if char_is_lowercase(c) {
                        self.add_piece(Color::Black, piece, current_position);
                        self.zobrist_key = self.zobrist_key ^ zobrist_piece_number(Color::Black, piece, current_position);
                    } else {
                        self.add_piece(Color::White, piece, current_position);
                        self.zobrist_key = self.zobrist_key ^ zobrist_piece_number(Color::White, piece, current_position);
                    }
                    current_position = current_position + 1;
                }
            }
            assert((*self, current_position as int, positions_finished) == fen_char_step(st, c));
            i = i + 1;
        }
    }

    /// Whether the move from `from` to `to` (promoting to `promoted_to`) can be played on this
    /// board: both squares on the board and the en passant test within range.
    pub fn is_move_safe(&self, from: usize, to: usize, promoted_to: Option<Promotion>) -> (r: bool)
        ensures
            r == move_is_safe(*self, from as int, to as int, promoted_to),
    {
        if from >= 64 || to >= 64 {
            return false;
        }
        if let Some(e) = self.en_passant {
            if e >= 64 {
                return false;
            }
        }
        if promoted_to.is_some() {
            return true;
        }
        let mut castled = *self;
        castled.castle(from, to);
        match castled.en_passant {
            None => true,
            Some(e) => {
                let pawns = castled.get_pieces(castled.current_move, Piece::Pawn);
                if !pawns.field_is_used(from) {
                    true
                } else {
                    match castled.current_move {
                        Color::White => !(e + 8 == to && !(from % 8 != 0 && e + 1 == from) && from % 8 != 7) || e >= 1,
                        Color::Black => e >= 8,
                    }
                }
            },
        }
    }

    /// Sets up the position of a FEN string if every character of it can be read, and tells
    /// whether it did; otherwise the board is left as it was.
    pub fn try_create_position_from_input_string(&mut self, position: String) -> (r: bool)
        ensures
            r == fen_readable(position@),
            r ==> *final(self) == spec_board_from_fen(position@),
            !r ==> *final(self) == *old(self),
    {
        if is_readable_position(position.as_str()) {
            self.create_position_from_input_string(position);
            true
        } else {
            false
        }
    }

    /// Sets up the standard starting position.
    pub fn set_to_default(&mut self)
        ensures
            *final(self) == spec_board_from_fen(
                "rnbqkbnr/pppppppp/8/8/8/8/PPPPPPPP/RNBQKBNR w KQkq - 0 1"@,
            ),
    {
        let default_position = String::from_str(
            "rnbqkbnr/pppppppp/8/8/8/8/PPPPPPPP/RNBQKBNR w KQkq - 0 1",
        );
        proof {
            lemma_start_fen_readable();
        }
        self.create_position_from_input_string(default_position);
    }

    /// Plays a move given in coordinate notation ("e2e4", "e7e8q"); other input is ignored.
    pub fn update_position_from_uci_input(&mut self, mov: &str)
        requires
            spec_parse_uci(mov@) matches Some(m) ==> move_is_safe(
                *old(self),
                m.from as int,
                m.to as int,
                m.promoted_to,
            ),
        ensures
            *final(self) == match spec_parse_uci(mov@) {
                Some(m) => spec_move_figure(*old(self), m.from as int, m.to as int, m.promoted_to),
                None => *old(self),
            },
    {
        if let Some(m) = get_validated_position_from_input(mov) {
            self.move_figure(m.from, m.to, m.promoted_to);
        }
    }
}

impl Default for Chessboard {
    /// The standard starting position.
    fn default() -> (board: Chessboard)
        ensures
            board == spec_board_from_fen("rnbqkbnr/pppppppp/8/8/8/8/PPPPPPPP/RNBQKBNR w KQkq - 0 1"@),
    {
        let mut board = Chessboard {
            positions: Bitboard::new(),
            used_positions: [Bitboard::new(), Bitboard::new()],
            figures: empty_figures(),
            current_move: Color::White,
            en_passant: None,
            castle: empty_castle(),
            zobrist_key: ZOBRIST_SEED,
        };
        board.set_to_default();
        board
    }
}

/// Every move hands the turn to the other side.
pub proof fn law_move_passes_the_turn(b: Chessboard, from: int, to: int, promoted_to: Option<Promotion>)
    ensures
        spec_move_figure(b, from, to, promoted_to).current_move == b.current_move.other(),
{
    if promoted_to is None {
        let b1 = spec_castle(b, from, to);
        let b2 = spec_check_and_execute_en_passant(b1, from, to);
        lemma_castle_frame(b, from, to, b.current_move, Piece::King, 1);
        lemma_en_passant_keeps_own(b1, from, to, Piece::King);
        lemma_en_passant_keeps_own(b2, from, to, Piece::King);
    }
}

/// Taking a piece off a square changes that piece kind's bit there and nothing else.
proof fn lemma_remove_piece_bits(b: Chessboard, color: Color, piece: Piece, pos: int, c: Color, k: Piece, sq: int)
    requires
        0 <= pos < 64,
        0 <= sq < 64,
    ensures
        bit(piece_bits(spec_remove_piece(b, color, piece, pos), c, k), sq) == (bit(piece_bits(b, c, k), sq)
            && !(c == color && k == piece && sq == pos)),
{
    lemma_bit_clear(piece_bits(b, color, piece), pos as u64, sq as u64);
}

/// Putting a piece on a square changes that piece kind's bit there and nothing else.
pub proof fn lemma_add_piece_bits(b: Chessboard, color: Color, piece: Piece, pos: int, c: Color, k: Piece, sq: int)
    requires
        0 <= pos < 64,
        0 <= sq < 64,
    ensures
        bit(piece_bits(spec_add_piece(b, color, piece, pos), c, k), sq) == (bit(piece_bits(b, c, k), sq) || (c
            == color && k == piece && sq == pos)),
{
    lemma_bit_set(piece_bits(b, color, piece), pos as u64, sq as u64);
}

/// Moving a piece from `from` to `to` leaves every piece bit on every other square as it was.
proof fn lemma_relocate_frame(b: Chessboard, color: Color, from: int, to: int, c: Color, k: Piece, sq: int)
    requires
        0 <= from < 64,
        0 <= to < 64,
        0 <= sq < 64,
        sq != from,
        sq != to,
    ensures
        bit(piece_bits(spec_relocate(b, color, from, to), c, k), sq) == bit(piece_bits(b, c, k), sq),
{
    let b1 = spec_remove_opponent_piece_from_field(b, to, color.other());
    if bit(opponents_bits(b), to) {
        if let Some(q) = spec_type_of_figure(b, color.other(), to) {
            lemma_remove_piece_bits(b, color.other(), q, to, c, k, sq);
        }
    }
    assert(bit(piece_bits(b1, c, k), sq) == bit(piece_bits(b, c, k), sq));
    if let Some(p) = spec_type_of_figure(b1, color, from) {
        let b2 = spec_remove_piece(b1, color, p, from);
        lemma_remove_piece_bits(b1, color, p, from, c, k, sq);
        lemma_add_piece_bits(b2, color, p, to, c, k, sq);
    }
}

/// Taking a piece of the other side leaves the pieces of `c` as they were.
proof fn lemma_remove_opponent_keeps(b: Chessboard, field: int, c: Color, k: Piece)
    ensures
        piece_bits(spec_remove_opponent_piece_from_field(b, field, c.other()), c, k) == piece_bits(b, c, k),
        spec_remove_opponent_piece_from_field(b, field, c.other()).current_move == b.current_move,
{
}

/// Losing castling rights changes no piece and not the side to move.
proof fn lemma_rights_keep_pieces(b: Chessboard, from: int, to: int)
    ensures
        spec_white_rights_after(b, from, to).figures == b.figures,
        spec_white_rights_after(b, from, to).current_move == b.current_move,
        spec_black_rights_after(b, from, to).figures == b.figures,
        spec_black_rights_after(b, from, to).current_move == b.current_move,
{
}

/// Moving a piece of `color` with the rights update changes piece bits only on `from` and `to`.
proof fn lemma_side_move_frame(b: Chessboard, color: Color, from: int, to: int, c: Color, k: Piece, sq: int)
    requires
        0 <= from < 64,
        0 <= to < 64,
        0 <= sq < 64,
        sq != from,
        sq != to,
    ensures
        color == Color::White ==> bit(piece_bits(spec_move_white_figure(b, from, to), c, k), sq) == bit(piece_bits(b, c, k), sq),
        color == Color::Black ==> bit(piece_bits(spec_move_black_figure(b, from, to), c, k), sq) == bit(piece_bits(b, c, k), sq),
        spec_move_white_figure(b, from, to).current_move == b.current_move,
        spec_move_black_figure(b, from, to).current_move == b.current_move,
{
    lemma_relocate_frame(b, color, from, to, c, k, sq);
    lemma_rights_keep_pieces(spec_relocate(b, Color::White, from, to), from, to);
    lemma_rights_keep_pieces(spec_relocate(b, Color::Black, from, to), from, to);
}

/// Castling moves only a rook between its corner and its square beside the king (and takes
/// what stands there), so every other square keeps its pieces.
#[verifier::rlimit(30)]
proof fn lemma_castle_frame(b: Chessboard, from: int, to: int, c: Color, k: Piece, sq: int)
    requires
        0 <= sq < 64,
        sq != 0 && sq != 3 && sq != 5 && sq != 7,
        sq != 56 && sq != 59 && sq != 61 && sq != 63,
    ensures
        bit(piece_bits(spec_castle(b, from, to), c, k), sq) == bit(piece_bits(b, c, k), sq),
        spec_castle(b, from, to).current_move == b.current_move,
{
    reveal(spec_castle);
    reveal(spec_white_castle);
    reveal(spec_black_castle);
    if !((from == 4 && (to == 2 || to == 6)) || (from == 60 && (to == 58 || to == 62))) {
    } else if !b.castle.spec_can_castle(b.current_move) {
    } else if from == 4 {
        let b1 = with_castle(b, spec_has_castled(b), b.zobrist_key ^ zobrist_castle(0) ^ zobrist_castle(1));
        assert(piece_bits(b1, c, k) == piece_bits(b, c, k));
        let b2 = if to == 2 { spec_move_white_figure(b1, 0, 3) } else { b1 };
        lemma_side_move_frame(b1, Color::White, 0, 3, c, k, sq);
        assert(bit(piece_bits(b2, c, k), sq) == bit(piece_bits(b, c, k), sq));
        lemma_side_move_frame(b2, Color::White, 7, 5, c, k, sq);
        assert(spec_castle(b, from, to) == spec_white_castle(b, to));
    } else {
        let d1 = with_castle(b, spec_has_castled(b), b.zobrist_key ^ zobrist_castle(2) ^ zobrist_castle(3));
        assert(piece_bits(d1, c, k) == piece_bits(b, c, k));
        let d2 = if to == 58 { spec_move_black_figure(d1, 56, 59) } else { d1 };
        lemma_side_move_frame(d1, Color::Black, 56, 59, c, k, sq);
        assert(bit(piece_bits(d2, c, k), sq) == bit(piece_bits(b, c, k), sq));
        lemma_side_move_frame(d2, Color::Black, 63, 61, c, k, sq);
        assert(spec_castle(b, from, to) == spec_black_castle(b, to));
    }
}

/// En passant takes only a pawn of the other side, and the en passant square changes no piece.
proof fn lemma_en_passant_keeps_own(b: Chessboard, from: int, to: int, k: Piece)
    ensures
        piece_bits(spec_check_and_execute_en_passant(b, from, to), b.current_move, k) == piece_bits(b, b.current_move, k),
        spec_check_and_execute_en_passant(b, from, to).current_move == b.current_move,
        spec_possible_future_en_passant(b, from, to).figures == b.figures,
        spec_possible_future_en_passant(b, from, to).current_move == b.current_move,
{
    reveal(spec_check_and_execute_en_passant);
    reveal(spec_possible_future_en_passant);
}

/// Moving the piece on `from` of `color` puts a piece of its kind on `to` and takes it off `from`.
proof fn lemma_relocate_arrives(b: Chessboard, color: Color, from: int, to: int, p: Piece)
    requires
        0 <= from < 64,
        0 <= to < 64,
        from != to,
        spec_type_of_figure(b, color, from) == Some(p),
    ensures
        bit(piece_bits(spec_relocate(b, color, from, to), color, p), to),
        !bit(piece_bits(spec_relocate(b, color, from, to), color, p), from),
{
    let r1 = spec_remove_opponent_piece_from_field(b, to, color.other());
    assert(color.other().other() == color);
    lemma_remove_opponent_keeps(b, to, color, Piece::Pawn);
    lemma_remove_opponent_keeps(b, to, color, Piece::Knight);
    lemma_remove_opponent_keeps(b, to, color, Piece::Bishop);
    lemma_remove_opponent_keeps(b, to, color, Piece::Rook);
    lemma_remove_opponent_keeps(b, to, color, Piece::Queen);
    lemma_remove_opponent_keeps(b, to, color, Piece::King);
    assert(spec_type_of_figure(r1, color, from) == Some(p));
    let r2 = spec_remove_piece(r1, color, p, from);
    lemma_remove_piece_bits(r1, color, p, from, color, p, to);
    lemma_remove_piece_bits(r1, color, p, from, color, p, from);
    lemma_add_piece_bits(r2, color, p, to, color, p, to);
    lemma_add_piece_bits(r2, color, p, to, color, p, from);
}

/// Castling, en passant and the en passant square keep the moving piece on `from` and the side
/// to move.
proof fn lemma_before_relocation(b: Chessboard, from: int, to: int, p: Piece)
    requires
        0 <= from < 64,
        spec_type_of_figure(b, b.current_move, from) == Some(p),
    ensures
        spec_type_of_figure(
            spec_possible_future_en_passant(spec_check_and_execute_en_passant(spec_castle(b, from, to), from, to), from, to),
            b.current_move,
            from,
        ) == Some(p),
        spec_possible_future_en_passant(spec_check_and_execute_en_passant(spec_castle(b, from, to), from, to), from, to).current_move
            == b.current_move,
{
    let c = b.current_move;
    let b1 = spec_castle(b, from, to);
    let b2 = spec_check_and_execute_en_passant(b1, from, to);
    let b3 = spec_possible_future_en_passant(b2, from, to);
    let is_castle = (from == 4 && (to == 2 || to == 6)) || (from == 60 && (to == 58 || to == 62));
    // the castling rook never stands on the squares of the king's move
    assert forall|k: Piece| bit(piece_bits(b1, c, k), from) == bit(piece_bits(b, c, k), from) by {
        if is_castle {
            lemma_castle_frame(b, from, to, c, k, from);
        } else {
            reveal(spec_castle);
        }
    }
    assert(b1.current_move == c) by {
        lemma_castle_frame(b, from, to, c, Piece::King, 1);
    }
    assert forall|k: Piece| piece_bits(b3, c, k) == piece_bits(b1, c, k) by {
        lemma_en_passant_keeps_own(b1, from, to, k);
        lemma_en_passant_keeps_own(b2, from, to, k);
    }
    lemma_en_passant_keeps_own(b1, from, to, p);
    lemma_en_passant_keeps_own(b2, from, to, p);
}

/// A piece moved without promotion arrives: when the side to move has a piece of kind `p` on
/// `from`, after the move from `from` to `to` it has a piece of that kind on `to` and none on
/// `from`; castling, en passant and the lost rights change nothing about that.
pub proof fn law_moved_piece_arrives(b: Chessboard, from: int, to: int, p: Piece)
    requires
        0 <= from < 64,
        0 <= to < 64,
        from != to,
        spec_type_of_figure(b, b.current_move, from) == Some(p),
    ensures
        bit(piece_bits(spec_move_figure(b, from, to, None), b.current_move, p), to),
        !bit(piece_bits(spec_move_figure(b, from, to, None), b.current_move, p), from),
{
    let c = b.current_move;
    let b3 = spec_possible_future_en_passant(spec_check_and_execute_en_passant(spec_castle(b, from, to), from, to), from, to);
    lemma_before_relocation(b, from, to, p);
    lemma_relocate_arrives(b3, c, from, to, p);
    lemma_rights_keep_pieces(spec_relocate(b3, c, from, to), from, to);
}

/// A plain move (without promotion) costs castling rights: a move from the king's square takes
/// both rights of the side to move, a move from a rook's corner the right on that wing, and a
/// move onto a corner of the other side takes the other side's right on that wing. After such a
/// move the right is gone, whatever the board held before.
pub proof fn law_corner_moves_lose_castling_rights(b: Chessboard, from: int, to: int)
    ensures
        b.current_move == Color::White && from == 4 ==> !spec_move_figure(b, from, to, None).castle.white_castle_short
            && !spec_move_figure(b, from, to, None).castle.white_castle_long,
        b.current_move == Color::White && from == 7 ==> !spec_move_figure(b, from, to, None).castle.white_castle_short,
        b.current_move == Color::White && from == 0 ==> !spec_move_figure(b, from, to, None).castle.white_castle_long,
        b.current_move == Color::White && to == 63 ==> !spec_move_figure(b, from, to, None).castle.black_castle_short,
        b.current_move == Color::White && to == 56 ==> !spec_move_figure(b, from, to, None).castle.black_castle_long,
        b.current_move == Color::Black && from == 60 ==> !spec_move_figure(b, from, to, None).castle.black_castle_short
            && !spec_move_figure(b, from, to, None).castle.black_castle_long,
        b.current_move == Color::Black && from == 63 ==> !spec_move_figure(b, from, to, None).castle.black_castle_short,
        b.current_move == Color::Black && from == 56 ==> !spec_move_figure(b, from, to, None).castle.black_castle_long,
        b.current_move == Color::Black && to == 7 ==> !spec_move_figure(b, from, to, None).castle.white_castle_short,
        b.current_move == Color::Black && to == 0 ==> !spec_move_figure(b, from, to, None).castle.white_castle_long,
{
    let b1 = spec_castle(b, from, to);
    let b2 = spec_check_and_execute_en_passant(b1, from, to);
    let b3 = spec_possible_future_en_passant(b2, from, to);
    lemma_castle_frame(b, from, to, b.current_move, Piece::King, 1);
    lemma_en_passant_keeps_own(b1, from, to, Piece::King);
    lemma_en_passant_keeps_own(b2, from, to, Piece::King);
    assert(b3.current_move == b.current_move);
    lemma_rights_after_corners(spec_relocate(b3, b.current_move, from, to), from, to);
}

/// What the rights update leaves of the rights touched by a move from `from` to `to`.
proof fn lemma_rights_after_corners(b: Chessboard, from: int, to: int)
    ensures
        from == 4 ==> !spec_white_rights_after(b, from, to).castle.white_castle_short
            && !spec_white_rights_after(b, from, to).castle.white_castle_long,
        from == 7 ==> !spec_white_rights_after(b, from, to).castle.white_castle_short,
        from == 0 ==> !spec_white_rights_after(b, from, to).castle.white_castle_long,
        to == 63 ==> !spec_white_rights_after(b, from, to).castle.black_castle_short,
        to == 56 ==> !spec_white_rights_after(b, from, to).castle.black_castle_long,
        from == 60 ==> !spec_black_rights_after(b, from, to).castle.black_castle_short
            && !spec_black_rights_after(b, from, to).castle.black_castle_long,
        from == 63 ==> !spec_black_rights_after(b, from, to).castle.black_castle_short,
        from == 56 ==> !spec_black_rights_after(b, from, to).castle.black_castle_long,
        to == 7 ==> !spec_black_rights_after(b, from, to).castle.white_castle_short,
        to == 0 ==> !spec_black_rights_after(b, from, to).castle.white_castle_long,
{
}

/// The corner a castling rook leaves when the king castles onto `to`.
pub open spec fn castling_rook_from(to: int) -> int {
    if to == 6 {
        7
    } else if to == 2 {
        0
    } else if to == 62 {
        63
    } else {
        56
    }
}

/// The square beside the king that the castling rook goes to when the king castles onto `to`.
pub open spec fn castling_rook_to(to: int) -> int {
    if to == 6 {
        5
    } else if to == 2 {
        3
    } else if to == 62 {
        61
    } else {
        59
    }
}

/// Castling moves the rook too: when the side to move, which may still castle, plays its king
/// from e1 (e8) two squares toward a corner where its rook stands, that rook ends on the square
/// the king passed over and is gone from its corner.
pub proof fn law_castling_moves_the_rook(b: Chessboard, from: int, to: int)
    requires
        (b.current_move == Color::White && from == 4 && (to == 6 || to == 2)) || (b.current_move == Color::Black
            && from == 60 && (to == 62 || to == 58)),
        b.castle.spec_can_castle(b.current_move),
        spec_type_of_figure(b, b.current_move, castling_rook_from(to)) == Some(Piece::Rook),
    ensures
        bit(piece_bits(spec_move_figure(b, from, to, None), b.current_move, Piece::Rook), castling_rook_to(to)),
        !bit(piece_bits(spec_move_figure(b, from, to, None), b.current_move, Piece::Rook), castling_rook_from(to)),
{
    reveal(spec_castle);
    reveal(spec_white_castle);
    reveal(spec_black_castle);
    let c = b.current_move;
    let rf = castling_rook_from(to);
    let rt = castling_rook_to(to);
    let key = if c == Color::White {
        b.zobrist_key ^ zobrist_castle(0) ^ zobrist_castle(1)
    } else {
        b.zobrist_key ^ zobrist_castle(2) ^ zobrist_castle(3)
    };
    let bw = with_castle(b, spec_has_castled(b), key);
    assert forall|k: Piece| piece_bits(bw, c, k) == piece_bits(b, c, k) by {}
    assert(spec_type_of_figure(bw, c, rf) == Some(Piece::Rook));
    lemma_relocate_arrives(bw, c, rf, rt, Piece::Rook);
    let moved = spec_relocate(bw, c, rf, rt);
    lemma_rights_keep_pieces(moved, rf, rt);
    let b1 = spec_castle(b, from, to);
    if c == Color::White {
        assert(b1 == spec_white_rights_after(moved, rf, rt));
    } else {
        assert(b1 == spec_black_rights_after(moved, rf, rt));
    }
    assert(bit(piece_bits(b1, c, Piece::Rook), rt) && !bit(piece_bits(b1, c, Piece::Rook), rf));
    lemma_castle_frame(b, from, to, c, Piece::King, 1);
    let b2 = spec_check_and_execute_en_passant(b1, from, to);
    let b3 = spec_possible_future_en_passant(b2, from, to);
    lemma_en_passant_keeps_own(b1, from, to, Piece::Rook);
    lemma_en_passant_keeps_own(b2, from, to, Piece::Rook);
    assert(b3.current_move == c);
    assert(piece_bits(b3, c, Piece::Rook) == piece_bits(b1, c, Piece::Rook));
    lemma_side_move_frame(b3, c, from, to, c, Piece::Rook, rt);
    lemma_side_move_frame(b3, c, from, to, c, Piece::Rook, rf);
}

/// Taking en passant removes the pawn that passed: when a pawn of the side to move steps
/// diagonally behind the opponent pawn on the en passant square, that opponent pawn is gone
/// after the move.
pub proof fn law_en_passant_takes_the_passed_pawn(b: Chessboard, from: int, to: int)
    requires
        0 <= from < 64,
        0 <= to < 64,
        b.en_passant matches Some(e) && e < 64 && match b.current_move {
            Color::White => spec_is_en_passant_white(e as int, from, to),
            Color::Black => spec_is_en_passant_black(e as int, from, to),
        },
        bit(piece_bits(b, b.current_move, Piece::Pawn), from),
    ensures
        !bit(piece_bits(spec_move_figure(b, from, to, None), b.current_move.other(), Piece::Pawn), b.en_passant->0 as int),
{
    reveal(spec_castle);
    reveal(spec_check_and_execute_en_passant);
    reveal(spec_possible_future_en_passant);
    let c = b.current_move;
    let e = b.en_passant->0 as int;
    let b1 = spec_castle(b, from, to);
    assert(b1 == b);
    let k1 = Chessboard { zobrist_key: b.zobrist_key ^ zobrist_en_passant(e), ..b };
    let b2 = spec_check_and_execute_en_passant(b1, from, to);
    assert(b2 == spec_remove_piece(k1, c.other(), Piece::Pawn, e));
    lemma_remove_piece_bits(k1, c.other(), Piece::Pawn, e, c.other(), Piece::Pawn, e);
    let b3 = spec_possible_future_en_passant(b2, from, to);
    assert(b3.figures == b2.figures && b3.current_move == c);
    lemma_side_move_frame(b3, c, from, to, c.other(), Piece::Pawn, e);
}

/// A promoting move leaves no pawn of the side to move on its square, and puts a piece of the
/// chosen kind there (a queen for a queen promotion, a knight for a knight, and so on); the
/// square it came from holds no pawn of that side any more.
pub proof fn law_promotion_puts_the_chosen_piece(b: Chessboard, from: int, to: int, promoted: Promotion)
    requires
        0 <= from < 64,
        0 <= to < 64,
        from != to,
    ensures
        bit(
            piece_bits(spec_move_figure(b, from, to, Some(promoted)), b.current_move, match promoted {
                Promotion::Queen => Piece::Queen,
                Promotion::Knight => Piece::Knight,
                Promotion::Bishop => Piece::Bishop,
                Promotion::Rook => Piece::Rook,
            }),
            to,
        ),
        !bit(piece_bits(spec_move_figure(b, from, to, Some(promoted)), b.current_move, Piece::Pawn), from),
{
    let c = b.current_move;
    let kind = spec_promotion_to_figure(promoted);
    let b1 = spec_remove_piece(b, c, Piece::Pawn, from);
    let b2 = spec_remove_opponent_piece_from_field(b1, to, c.other());
    assert(c.other().other() == c);
    lemma_remove_piece_bits(b, c, Piece::Pawn, from, c, Piece::Pawn, from);
    lemma_remove_opponent_keeps(b1, to, c, Piece::Pawn);
    lemma_add_piece_bits(b2, c, kind, to, c, kind, to);
    lemma_add_piece_bits(b2, c, kind, to, c, Piece::Pawn, from);
}

/// After a plain move, the en passant square is the square a pawn of the side to move reached
/// with a double step from `from` to `to`, and there is none after any other move.
pub proof fn law_en_passant_square_follows_double_steps(b: Chessboard, from: int, to: int)
    requires
        0 <= from < 64,
        0 <= to < 64,
    ensures
        spec_move_figure(b, from, to, None).en_passant == if bit(piece_bits(b, b.current_move, Piece::Pawn), from) && match b.current_move {
            Color::White => to == from + 16,
            Color::Black => from == to + 16,
        } {
            Some(to as usize)
        } else {
            None::<usize>
        },
{
    reveal(spec_possible_future_en_passant);
    let c = b.current_move;
    let b1 = spec_castle(b, from, to);
    let b2 = spec_check_and_execute_en_passant(b1, from, to);
    let b3 = spec_possible_future_en_passant(b2, from, to);
    if (from == 4 && (to == 2 || to == 6)) || (from == 60 && (to == 58 || to == 62)) {
        lemma_castle_frame(b, from, to, c, Piece::Pawn, from);
    } else {
        reveal(spec_castle);
    }
    lemma_castle_frame(b, from, to, c, Piece::King, 1);
    lemma_en_passant_keeps_own(b1, from, to, Piece::Pawn);
    assert(b2.current_move == c);
    assert(bit(piece_bits(b2, c, Piece::Pawn), from) == bit(piece_bits(b, c, Piece::Pawn), from));
    assert(spec_relocate(b3, c, from, to).en_passant == b3.en_passant);
    assert(spec_white_rights_after(spec_relocate(b3, c, from, to), from, to).en_passant == b3.en_passant);
    assert(spec_black_rights_after(spec_relocate(b3, c, from, to), from, to).en_passant == b3.en_passant);
}

/// Handing the turn over twice gives the board back, its hash included.
pub proof fn law_turn_change_undoes_itself(b: Chessboard)
    ensures
        spec_set_current_move(spec_set_current_move(b)) == b,
{
    let k = b.zobrist_key;
    assert(k ^ ZOBRIST_CURRENT_MOVE ^ ZOBRIST_CURRENT_MOVE == k) by (bit_vector);
    assert(b.current_move.other().other() == b.current_move);
}

/// Taking off a piece that was just put on an empty square gives the board back, its hash
/// included.
pub proof fn law_remove_undoes_add(b: Chessboard, color: Color, piece: Piece, pos: int)
    requires
        0 <= pos < 64,
        !bit(piece_bits(b, color, piece), pos),
        !bit(used_bits(b, color), pos),
        !bit(b.positions.board, pos),
    ensures
        spec_remove_piece(spec_add_piece(b, color, piece, pos), color, piece, pos) == b,
{
    let m = 1u64 << (pos as u64);
    let x = piece_bits(b, color, piece);
    let u = used_bits(b, color);
    let q = b.positions.board;
    let p = pos as u64;
    assert(((x | (1u64 << p)) & !(1u64 << p)) == x) by (bit_vector)
        requires
            p < 64,
            (x >> p) & 1u64 != 1u64,
    ;
    assert(((u | (1u64 << p)) & !(1u64 << p)) == u) by (bit_vector)
        requires
            p < 64,
            (u >> p) & 1u64 != 1u64,
    ;
    assert(((q | (1u64 << p)) & !(1u64 << p)) == q) by (bit_vector)
        requires
            p < 64,
            (q >> p) & 1u64 != 1u64,
    ;
    let z = b.zobrist_key;
    let n = zobrist_piece(color, piece, pos);
    assert(z ^ n ^ n == z) by (bit_vector);
    let r = spec_remove_piece(spec_add_piece(b, color, piece, pos), color, piece, pos);
    assert(r.figures[color.idx()][piece.idx()] == b.figures[color.idx()][piece.idx()]);
    assert(r.figures[color.idx()] =~= b.figures[color.idx()]);
    assert(r.figures =~= b.figures);
    assert(r.used_positions =~= b.used_positions);
}

} // verus!

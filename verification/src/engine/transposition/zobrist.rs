use vstd::prelude::*;
use crate::figures::color::Color;
use crate::figures::piece::Piece;

verus! {

/// Start value of the hash of a freshly made board.
pub const ZOBRIST_SEED: u64 = 3847293847293847239u64;

/// Hash component toggled whenever the side to move changes.
pub const ZOBRIST_CURRENT_MOVE: u64 = 9182739182739182731u64;

/// Hash components of the castling rights: white short, white long, black short, black long.
pub open spec fn zobrist_castle(i: int) -> u64 {
    if i == 0 {
        13294823984729384712u64
    } else if i == 1 {
        8473928472384729384u64
    } else if i == 2 {
        1923847192384719238u64
    } else {
        982374928374928374u64
    }
}

/// The hash component of castling right `i`.
pub fn zobrist_castle_number(i: usize) -> (r: u64)
    requires
        i < 4,
    ensures
        r == zobrist_castle(i as int),
{
    if i == 0 {
        13294823984729384712u64
    } else if i == 1 {
        8473928472384729384u64
    } else if i == 2 {
        1923847192384719238u64
    } else {
        982374928374928374u64
    }
}

/// A fixed scrambling of 64-bit numbers, used to derive one well-spread hash component
/// per (color, piece, square) and per en passant square.
pub open spec fn mix64(x: u64) -> u64 {
    let z1 = x.wrapping_add(0x9E3779B97F4A7C15u64);
    let z2 = (z1 ^ (z1 >> 30u64)).wrapping_mul(0xBF58476D1CE4E5B9u64);
    let z3 = (z2 ^ (z2 >> 27u64)).wrapping_mul(0x94D049BB133111EBu64);
    z3 ^ (z3 >> 31u64)
}

/// The scrambled value of `x`.
pub fn mix(x: u64) -> (r: u64)
    ensures
        r == mix64(x),
{
    let z1 = x.wrapping_add(0x9E3779B97F4A7C15u64);
    let z2 = (z1 ^ (z1 >> 30u64)).wrapping_mul(0xBF58476D1CE4E5B9u64);
    let z3 = (z2 ^ (z2 >> 27u64)).wrapping_mul(0x94D049BB133111EBu64);
    z3 ^ (z3 >> 31u64)
}

/// Hash component of a `piece` of `color` standing on square `pos`.
pub open spec fn zobrist_piece(color: Color, piece: Piece, pos: int) -> u64 {
    mix64(((color.idx() * 6 + piece.idx()) * 64 + pos) as u64)
}

/// Hash component of a pawn that can be taken en passant on square `pos`.
pub open spec fn zobrist_en_passant(pos: int) -> u64 {
    mix64((768 + pos) as u64)
}

/// The hash component of a `piece` of `color` on square `pos`.
pub fn zobrist_piece_number(color: Color, piece: Piece, pos: usize) -> (r: u64)
    requires
        pos < 64,
    ensures
        r == zobrist_piece(color, piece, pos as int),
{
    let c = color.as_index() as u64;
    let p = piece.as_index() as u64;
    mix((c * 6 + p) * 64 + pos as u64)
}

/// The hash component of en passant square `pos`.
pub fn zobrist_en_passant_number(pos: usize) -> (r: u64)
    requires
        pos < 64,
    ensures
        r == zobrist_en_passant(pos as int),
{
    mix(768 + pos as u64)
}

/// The hash components of every (color, piece, square).
pub fn get_transposition_figure_random_numbers() -> (numbers: [[[u64; 64]; 6]; 2])
    ensures
        forall|c: int, p: int, s: int| 0 <= c < 2 && 0 <= p < 6 && 0 <= s < 64 ==>
            #[trigger] numbers[c][p][s] == mix64(((c * 6 + p) * 64 + s) as u64),
{
    let mut numbers = [[[0u64; 64]; 6]; 2];
    let mut c: usize = 0;
    while c < 2
        invariant
            c <= 2,
            forall|ci: int, p: int, s: int| 0 <= ci < c && 0 <= p < 6 && 0 <= s < 64 ==>
                #[trigger] numbers[ci][p][s] == mix64(((ci * 6 + p) * 64 + s) as u64),
        decreases 2 - c,
    {
        let mut per_piece = [[0u64; 64]; 6];
        let mut p: usize = 0;
        while p < 6
            invariant
                c < 2,
                p <= 6,
                forall|pi: int, s: int| 0 <= pi < p && 0 <= s < 64 ==>
                    #[trigger] per_piece[pi][s] == mix64(((c * 6 + pi) * 64 + s) as u64),
            decreases 6 - p,
        {
            let mut per_square = [0u64; 64];
            let mut s: usize = 0;
            while s < 64
                invariant
                    c < 2,
                    p < 6,
                    s <= 64,
                    forall|si: int| 0 <= si < s ==> #[trigger] per_square[si] == mix64(((c * 6 + p) * 64 + si) as u64),
                decreases 64 - s,
            {
                per_square[s] = mix(((c as u64) * 6 + p as u64) * 64 + s as u64);
                s = s + 1;
            }
            per_piece[p] = per_square;
            p = p + 1;
        }
        numbers[c] = per_piece;
        c = c + 1;
    }
    numbers
}

/// The hash components of every en passant square.
pub fn get_transposition_en_passant_numbers() -> (numbers: [u64; 64])
    ensures
        forall|s: int| 0 <= s < 64 ==> #[trigger] numbers[s] == zobrist_en_passant(s),
{
    let mut numbers = [0u64; 64];
    let mut s: usize = 0;
    while s < 64
        invariant
            s <= 64,
            forall|si: int| 0 <= si < s ==> #[trigger] numbers[si] == zobrist_en_passant(si),
        decreases 64 - s,
    {
        numbers[s] = zobrist_en_passant_number(s);
        s = s + 1;
    }
    numbers
}

} // verus!

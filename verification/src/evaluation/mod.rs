use vstd::prelude::*;
use crate::figures::color::Color;

verus! {

/// The side of the board a king stands on, seen from its own side: LEFT toward the queen's
/// files a to c for white, RIGHT toward f to h.
#[derive(PartialEq, Eq, Structural, PartialOrd, Clone, Debug, Copy)]
pub enum KingPosition {
    CENTER,
    LEFT,
    RIGHT,
}

impl KingPosition {
    /// Position of the side in per-side arrays (center first).
    pub open spec fn idx(self) -> int {
        match self {
            KingPosition::CENTER => 0,
            KingPosition::LEFT => 1,
            KingPosition::RIGHT => 2,
        }
    }
}

/// The king position of a king on the file `king_position % 8`: files a to c are LEFT and f to h
/// RIGHT for white; for black, seen from its side, the two are swapped.
pub open spec fn spec_king_location(king_position: int, is_black_king: bool) -> KingPosition {
    let file = king_position % 8;
    if file <= 2 {
        if is_black_king { KingPosition::RIGHT } else { KingPosition::LEFT }
    } else if file >= 5 {
        if is_black_king { KingPosition::LEFT } else { KingPosition::RIGHT }
    } else {
        KingPosition::CENTER
    }
}

/// The side of the board a king on `king_position` stands on, seen from its own side.
pub fn check_where_king_is_located(king_position: usize, is_black_king: bool) -> (r: KingPosition)
    ensures
        r == spec_king_location(king_position as int, is_black_king),
{
    if is_black_king {
        return match king_position % 8 {
            0..=2 => KingPosition::RIGHT,
            5..=7 => KingPosition::LEFT,
            _ => KingPosition::CENTER,
        };
    }
    match king_position % 8 {
        0..=2 => KingPosition::LEFT,
        5..=7 => KingPosition::RIGHT,
        _ => KingPosition::CENTER,
    }
}

/// A square seen from `color`'s side: unchanged for white, mirrored (63 - square) for black.
pub fn get_position(position: usize, color: Color) -> (r: usize)
    requires
        color == Color::Black ==> position <= 63,
    ensures
        r == match color {
            Color::White => position as int,
            Color::Black => 63 - position,
        },
{
    match color {
        Color::White => position,
        Color::Black => 63 - position,
    }
}

/// The rank and the file of a square, both counted from 1.
pub fn get_column_and_row_from_position(position: usize) -> (r: (usize, usize))
    ensures
        r.0 == position / 8 + 1,
        r.1 == position % 8 + 1,
{
    let column = position / 8 + 1;
    let row = position % 8 + 1;
    (column, row)
}

/// Seeing a square twice from black's side gives the square back.
pub proof fn law_black_view_is_its_own_inverse(position: int)
    requires
        0 <= position <= 63,
    ensures
        0 <= 63 - position <= 63,
        63 - (63 - position) == position,
{
}

/// A black king stands on the side a white king on the mirrored file stands on: files a to c
/// and f to h swap their names.
pub proof fn law_king_location_mirrors(king_position: int)
    requires
        0 <= king_position < 64,
    ensures
        spec_king_location(king_position, true) == spec_king_location(63 - king_position, false),
{
    assert((63 - king_position) % 8 == 7 - king_position % 8);
}

} // verus!

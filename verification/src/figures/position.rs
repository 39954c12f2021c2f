use vstd::prelude::*;
use crate::figures::color::Color;

verus! {

/// The square `movement` squares ahead of `own_position` from `color`'s side.
pub fn calculate_next_position(color: &Color, own_position: &usize, movement: usize) -> (r: usize)
    requires
        *color == Color::Black ==> *own_position >= movement,
        *color == Color::White ==> *own_position + movement <= usize::MAX,
    ensures
        *color == Color::Black ==> r == *own_position - movement,
        *color == Color::White ==> r == *own_position + movement,
{
    match color {
        Color::Black => *own_position - movement,
        Color::White => *own_position + movement,
    }
}

} // verus!

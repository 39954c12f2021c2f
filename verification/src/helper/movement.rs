use vstd::prelude::*;

verus! {

/// Whether a piece on `field` has a square to its left (it is not on the a-file).
pub fn figure_can_move_left(field: &usize) -> (r: bool)
    ensures
        r == (*field % 8 != 0),
{
    *field % 8 != 0
}

/// Whether a piece on `field` has a square to its right (it is not on the h-file).
pub fn figure_can_move_right(field: &usize) -> (r: bool)
    ensures
        r == (*field % 8 != 7),
{
    *field % 8 != 7
}

} // verus!

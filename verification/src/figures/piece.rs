use vstd::prelude::*;

verus! {

#[derive(PartialEq, Eq, Structural, Clone, Debug, Copy)]
pub enum Piece {
    Pawn,
    Knight,
    Bishop,
    Rook,
    Queen,
    King,
}

impl Piece {
    /// Position of the piece kind in per-piece arrays (declaration order).
    pub open spec fn idx(self) -> int {
        match self {
            Piece::Pawn => 0,
            Piece::Knight => 1,
            Piece::Bishop => 2,
            Piece::Rook => 3,
            Piece::Queen => 4,
            Piece::King => 5,
        }
    }

    /// Position of the piece kind in per-piece arrays.
    pub fn as_index(self) -> (r: usize)
        ensures
            r == self.idx(),
    {
        match self {
            Piece::Pawn => 0,
            Piece::Knight => 1,
            Piece::Bishop => 2,
            Piece::Rook => 3,
            Piece::Queen => 4,
            Piece::King => 5,
        }
    }
}

} // verus!

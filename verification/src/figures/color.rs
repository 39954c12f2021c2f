use vstd::prelude::*;

verus! {

#[derive(PartialEq, Eq, Structural, Clone, Debug, Copy)]
pub enum Color {
    White,
    Black,
}

impl Color {
    /// Position of the color in per-color arrays (White first).
    pub open spec fn idx(self) -> int {
        match self {
            Color::White => 0,
            Color::Black => 1,
        }
    }

    /// Position of the color in per-color arrays (White first).
    pub fn as_index(self) -> (r: usize)
        ensures
            r == self.idx(),
    {
        match self {
            Color::White => 0,
            Color::Black => 1,
        }
    }

    /// The other side.
    pub open spec fn other(self) -> Color {
        match self {
            Color::White => Color::Black,
            Color::Black => Color::White,
        }
    }
}

impl Default for Color {
    fn default() -> (r: Color)
        ensures
            r == Color::White,
    {
        Color::White
    }
}

} // verus!

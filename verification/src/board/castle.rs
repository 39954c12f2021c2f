use vstd::prelude::*;
use crate::figures::color::Color;

verus! {

#[derive(Clone, Copy, Debug)]
pub struct Castle {
    pub white_castle_long: bool,
    pub white_castle_short: bool,
    pub black_castle_long: bool,
    pub black_castle_short: bool,
}

impl Castle {
    /// `color` may still castle to at least one side.
    pub open spec fn spec_can_castle(self, color: Color) -> bool {
        match color {
            Color::White => self.white_castle_long || self.white_castle_short,
            Color::Black => self.black_castle_long || self.black_castle_short,
        }
    }

    /// Whether white may still castle to at least one side.
    pub fn white_can_castle(&self) -> (r: bool)
        ensures
            r == (self.white_castle_long || self.white_castle_short),
    {
        self.white_castle_long || self.white_castle_short
    }

    /// Whether black may still castle to at least one side.
    pub fn black_can_castle(&self) -> (r: bool)
        ensures
            r == (self.black_castle_long || self.black_castle_short),
    {
        self.black_castle_long || self.black_castle_short
    }

    /// Whether `color` may still castle to at least one side.
    pub fn can_castle(&self, color: Color) -> (r: bool)
        ensures
            r == self.spec_can_castle(color),
    {
        match color {
            Color::White => self.white_can_castle(),
            Color::Black => self.black_can_castle(),
        }
    }

    /// Takes away both castling rights of `color`; the other side keeps its rights.
    pub fn set_has_castled(&mut self, color: Color)
        ensures
            color == Color::White ==> *final(self) == (Castle {
                white_castle_long: false,
                white_castle_short: false,
                ..*old(self)
            }),
            color == Color::Black ==> *final(self) == (Castle {
                black_castle_long: false,
                black_castle_short: false,
                ..*old(self)
            }),
    {
        match color {
            Color::White => {
                self.white_castle_long = false;
                self.white_castle_short = false;
            },
            Color::Black => {
                self.black_castle_long = false;
                self.black_castle_short = false;
            },
        }
    }
}

impl Default for Castle {
    fn default() -> (r: Castle)
        ensures
            !r.white_castle_long && !r.white_castle_short && !r.black_castle_long
                && !r.black_castle_short,
    {
        Castle {
            white_castle_long: false,
            white_castle_short: false,
            black_castle_long: false,
            black_castle_short: false,
        }
    }
}

/// Castling away one side's rights leaves it unable to castle and does not touch the other side.
pub proof fn law_set_has_castled(before: Castle, after: Castle, color: Color)
    requires
        color == Color::White ==> after == (Castle {
            white_castle_long: false,
            white_castle_short: false,
            ..before
        }),
        color == Color::Black ==> after == (Castle {
            black_castle_long: false,
            black_castle_short: false,
            ..before
        }),
    ensures
        !after.spec_can_castle(color),
        after.spec_can_castle(color.other()) == before.spec_can_castle(color.other()),
{
}

} // verus!

use vstd::prelude::*;
use vstd::string::*;
use crate::figures::piece::Piece;

verus! {

#[derive(PartialEq, Eq, Structural, Clone, Debug, Copy)]
pub enum Promotion {
    Queen,
    Rook,
    Knight,
    Bishop,
}

/// The piece a pawn becomes.
pub open spec fn spec_promotion_to_figure(promoted_to: Promotion) -> Piece {
    match promoted_to {
        Promotion::Queen => Piece::Queen,
        Promotion::Knight => Piece::Knight,
        Promotion::Bishop => Piece::Bishop,
        Promotion::Rook => Piece::Rook,
    }
}

/// The piece a pawn becomes.
pub fn convert_promotion_to_figure(promoted_to: Promotion) -> (r: Piece)
    ensures
        r == spec_promotion_to_figure(promoted_to),
{
    match promoted_to {
        Promotion::Queen => Piece::Queen,
        Promotion::Knight => Piece::Knight,
        Promotion::Bishop => Piece::Bishop,
        Promotion::Rook => Piece::Rook,
    }
}

/// The promotion a one-letter string names: q/Q queen, k/K knight, b/B bishop, r/R rook.
pub open spec fn spec_promotion_of_char(c: char) -> Option<Promotion> {
    if c == 'q' || c == 'Q' {
        Some(Promotion::Queen)
    } else if c == 'k' || c == 'K' {
        Some(Promotion::Knight)
    } else if c == 'b' || c == 'B' {
        Some(Promotion::Bishop)
    } else if c == 'r' || c == 'R' {
        Some(Promotion::Rook)
    } else {
        None
    }
}

/// The promotion a one-letter string names.
pub open spec fn spec_promotion_of_string(s: Seq<char>) -> Option<Promotion> {
    if s.len() == 1 {
        spec_promotion_of_char(s[0])
    } else {
        None
    }
}

/// The promotion an optional one-letter string names.
pub fn convert_input_string_to_promotion(promotion_str: Option<&str>) -> (r: Option<Promotion>)
    ensures
        r == match promotion_str {
            None => None,
            Some(s) => spec_promotion_of_string(s@),
        },
{
    match promotion_str {
        None => None,
        Some(s) => {
            if s.unicode_len() != 1 {
                return None;
            }
            let c = s.get_char(0);
            if c == 'q' || c == 'Q' {
                Some(Promotion::Queen)
            } else if c == 'k' || c == 'K' {
                Some(Promotion::Knight)
            } else if c == 'b' || c == 'B' {
                Some(Promotion::Bishop)
            } else if c == 'r' || c == 'R' {
                Some(Promotion::Rook)
            } else {
                None
            }
        },
    }
}

/// The letter a promotion is written with in outgoing moves (empty for none).
pub open spec fn spec_promotion_output(promoted_to: Option<Promotion>) -> Seq<char> {
    match promoted_to {
        None => Seq::empty(),
        Some(Promotion::Queen) => seq!['Q'],
        Some(Promotion::Knight) => seq!['N'],
        Some(Promotion::Bishop) => seq!['B'],
        Some(Promotion::Rook) => seq!['R'],
    }
}

/// The letter written after a promoting move (nothing for no promotion).
pub fn convert_promotion_to_output_string(promoted_to: Option<Promotion>) -> (r: String)
    ensures
        r@ == spec_promotion_output(promoted_to),
{
    if promoted_to.is_none() {
        let r = String::new();
        return r;
    }
    let promotion = promoted_to.unwrap();
    match promotion {
        Promotion::Queen => {
            proof {
                reveal_strlit("Q");
            }
            String::from_str("Q")
        },
        Promotion::Knight => {
            proof {
                reveal_strlit("N");
            }
            String::from_str("N")
        },
        Promotion::Bishop => {
            proof {
                reveal_strlit("B");
            }
            String::from_str("B")
        },
        Promotion::Rook => {
            proof {
                reveal_strlit("R");
            }
            String::from_str("R")
        },
    }
}

/// The promotion letter written for a queen, rook or bishop reads back as the same promotion;
/// the knight is written 'N' but read from 'k' or 'K', so it does not.
pub proof fn law_promotion_letter_reads_back(p: Promotion)
    requires
        p != Promotion::Knight,
    ensures
        spec_promotion_of_string(spec_promotion_output(Some(p))) == Some(p),
{
}

} // verus!

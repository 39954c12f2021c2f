use vstd::prelude::*;
use vstd::string::*;
use crate::board::promotion::{convert_input_string_to_promotion, spec_promotion_of_char};
use crate::engine::engine::PossibleMove;

verus! {

/// 1..8 for the file letters a..h, 0 for anything else.
pub open spec fn spec_row_from_string(row: Seq<char>) -> int {
    if row.len() == 1 && 'a' <= row[0] <= 'h' {
        (row[0] as int) - ('a' as int) + 1
    } else {
        0
    }
}

/// The square numbered from a1 = 0 for file letter `row` and rank `column` (1..8).
pub open spec fn spec_position_id(row: Seq<char>, column: int) -> int {
    spec_row_from_string(row) + (column - 1) * 8 - 1
}

/// The byte arithmetic of `get_position_id` stays in range.
pub open spec fn position_id_in_range(row: Seq<char>, column: int) -> bool {
    &&& 1 <= column <= 32
    &&& spec_row_from_string(row) + (column - 1) * 8 <= 255
    &&& spec_row_from_string(row) + (column - 1) * 8 >= 1
}

/// The number of a file letter, 1 for a to 8 for h, and 0 for anything else.
pub fn get_row_from_string(row: &str) -> (r: u8)
    ensures
        r == spec_row_from_string(row@),
{
    if row.unicode_len() != 1 {
        return 0;
    }
    let c = row.get_char(0);
    if c == 'a' {
        1
    } else if c == 'b' {
        2
    } else if c == 'c' {
        3
    } else if c == 'd' {
        4
    } else if c == 'e' {
        5
    } else if c == 'f' {
        6
    } else if c == 'g' {
        7
    } else if c == 'h' {
        8
    } else {
        0
    }
}

/// The square of a file letter and a rank number.
pub fn get_position_id(row: &str, column: u8) -> (r: usize)
    requires
        position_id_in_range(row@, column as int),
    ensures
        r == spec_position_id(row@, column as int),
{
    let row_value = get_row_from_string(row);
    (row_value + ((column - 1) * 8) - 1) as usize
}

/// `c` is one of the file letters a to h.
pub open spec fn is_file_letter(c: char) -> bool {
    'a' <= c <= 'h'
}

/// `c` is one of the rank digits 1 to 8.
pub open spec fn is_rank_digit(c: char) -> bool {
    '1' <= c <= '8'
}

/// The letters accepted after a move to name a promotion.
pub open spec fn is_promotion_letter(c: char) -> bool {
    c == 'q' || c == 'r' || c == 'b' || c == 'k' || c == 'Q' || c == 'K'
}

/// A move in coordinate notation at the start of `s`: file, rank, file, rank, then an
/// optional promotion letter; anything after that is ignored.
pub open spec fn is_uci_move(s: Seq<char>) -> bool {
    s.len() >= 4 && is_file_letter(s[0]) && is_rank_digit(s[1]) && is_file_letter(s[2]) && is_rank_digit(s[3])
}

/// The square of a file letter and a rank digit.
pub open spec fn spec_square_of(file: char, rank: char) -> int {
    ((rank as int) - ('1' as int)) * 8 + ((file as int) - ('a' as int))
}

/// The move a coordinate-notation string names, if it is one.
pub open spec fn spec_parse_uci(s: Seq<char>) -> Option<PossibleMove> {
    if is_uci_move(s) {
        Some(PossibleMove {
            from: spec_square_of(s[0], s[1]) as usize,
            to: spec_square_of(s[2], s[3]) as usize,
            promoted_to: if s.len() >= 5 && is_promotion_letter(s[4]) {
                spec_promotion_of_char(s[4])
            } else {
                None
            },
        })
    } else {
        None
    }
}

fn digit_value(c: char) -> (r: u8)
    requires
        '0' <= c <= '9',
    ensures
        r == (c as int) - ('0' as int),
{
    (c as u32 - '0' as u32) as u8
}

/// Splits a coordinate-notation move into its file letters, rank numbers and promotion letter.
pub fn validate_string_position<'a>(mov: &'a str) -> (r: Option<(&'a str, u8, &'a str, u8, Option<&'a str>)>)
    ensures
        r is Some <==> is_uci_move(mov@),
        r matches Some((fr, fc, tr, tc, promo)) ==> {
            &&& fr@ == seq![mov@[0]]
            &&& fc == (mov@[1] as int) - ('0' as int)
            &&& tr@ == seq![mov@[2]]
            &&& tc == (mov@[3] as int) - ('0' as int)
            &&& (promo is Some <==> (mov@.len() >= 5 && is_promotion_letter(mov@[4])))
            &&& (promo matches Some(p) ==> p@ == mov@.subrange(4, 5))
        },
{
    let n = mov.unicode_len();
    if n < 4 {
        return None;
    }
    let c0 = mov.get_char(0);
    let c1 = mov.get_char(1);
    let c2 = mov.get_char(2);
    let c3 = mov.get_char(3);
    if !('a' <= c0 && c0 <= 'h' && '1' <= c1 && c1 <= '8' && 'a' <= c2 && c2 <= 'h' && '1' <= c3 && c3 <= '8') {
        return None;
    }
    let promoted_to_piece = if n >= 5 {
        let c4 = mov.get_char(4);
        if c4 == 'q' || c4 == 'r' || c4 == 'b' || c4 == 'k' || c4 == 'Q' || c4 == 'K' {
            Some(mov.substring_char(4, 5))
        } else {
            None
        }
    } else {
        None
    };
    let from_row = mov.substring_char(0, 1);
    let to_row = mov.substring_char(2, 3);
    assert(from_row@ =~= seq![mov@[0]]);
    assert(to_row@ =~= seq![mov@[2]]);
    Some((from_row, digit_value(c1), to_row, digit_value(c3), promoted_to_piece))
}


/// The move named by a coordinate-notation string such as "e2e4" or "e7e8q".
pub fn get_validated_position_from_input(mov: &str) -> (r: Option<PossibleMove>)
    ensures
        r == spec_parse_uci(mov@),
{
    if let Some((from_row, from_column, to_row, to_column, promoted_to_piece)) =
        validate_string_position(mov)
    {
        let old_field = get_position_id(from_row, from_column);
        let new_field = get_position_id(to_row, to_column);
        let promoted_figure = convert_input_string_to_promotion(promoted_to_piece);
        return Some(PossibleMove { from: old_field, to: new_field, promoted_to: promoted_figure });
    }
    None
}

/// A line of the opening book reads as two squares in its first four characters.
pub open spec fn opening_line_ok(line: Seq<char>) -> bool {
    &&& line.len() >= 4
    &&& '0' <= line[1] <= '9'
    &&& '0' <= line[3] <= '9'
    &&& position_id_in_range(seq![line[0]], (line[1] as int) - ('0' as int))
    &&& position_id_in_range(seq![line[2]], (line[3] as int) - ('0' as int))
}

/// The squares of the first four characters of an opening-book line ("e2e4 ...").
pub fn get_position_from_input(line: String) -> (r: (usize, usize))
    requires
        opening_line_ok(line@),
    ensures
        r.0 == spec_position_id(seq![line@[0]], (line@[1] as int) - ('0' as int)),
        r.1 == spec_position_id(seq![line@[2]], (line@[3] as int) - ('0' as int)),
{
    let s = line.as_str();
    let from_row = s.substring_char(0, 1);
    let from_column = digit_value(s.get_char(1));
    let to_row = s.substring_char(2, 3);
    let to_column = digit_value(s.get_char(3));
    assert(from_row@ =~= seq![line@[0]]);
    assert(to_row@ =~= seq![line@[2]]);
    (get_position_id(from_row, from_column), get_position_id(to_row, to_column))
}

/// A move in coordinate notation names its squares by file letter and rank digit: the square
/// of "a".."h" and "1".."8" lies on that file (a = 0) and that rank (1 = 0), on the board, and
/// a parsed move runs between the squares its four characters name.
pub proof fn law_coordinates_name_their_squares(s: Seq<char>)
    requires
        is_uci_move(s),
    ensures
        spec_parse_uci(s) matches Some(m) && {
            &&& 0 <= m.from < 64 && 0 <= m.to < 64
            &&& m.from as int % 8 == (s[0] as int) - ('a' as int)
            &&& m.from as int / 8 == (s[1] as int) - ('1' as int)
            &&& m.to as int % 8 == (s[2] as int) - ('a' as int)
            &&& m.to as int / 8 == (s[3] as int) - ('1' as int)
        },
{
}

} // verus!

use vstd::prelude::*;
use vstd::string::*;
use crate::board::promotion::{Promotion, convert_promotion_to_output_string, spec_promotion_output};
use crate::engine::engine::PossibleMove;
use crate::helper::position_to_usize::{is_file_letter, is_rank_digit, spec_parse_uci, spec_square_of};

verus! {

/// The file letter of a square: a for the first file through h for the eighth.
pub open spec fn file_letter(row: int) -> char {
    let f = row % 8;
    if f == 0 {
        'a'
    } else if f == 1 {
        'b'
    } else if f == 2 {
        'c'
    } else if f == 3 {
        'd'
    } else if f == 4 {
        'e'
    } else if f == 5 {
        'f'
    } else if f == 6 {
        'g'
    } else {
        'h'
    }
}

/// The character of the decimal digit `d`.
pub open spec fn digit_char(d: int) -> char {
    if d == 0 {
        '0'
    } else if d == 1 {
        '1'
    } else if d == 2 {
        '2'
    } else if d == 3 {
        '3'
    } else if d == 4 {
        '4'
    } else if d == 5 {
        '5'
    } else if d == 6 {
        '6'
    } else if d == 7 {
        '7'
    } else if d == 8 {
        '8'
    } else {
        '9'
    }
}

/// The decimal digits of `n`, most significant first, without leading zeros.
pub open spec fn decimal(n: nat) -> Seq<char>
    decreases n,
{
    if n < 10 {
        seq![digit_char(n as int)]
    } else {
        decimal(n / 10) + seq![digit_char((n % 10) as int)]
    }
}

/// A square in coordinate notation: its file letter, then its rank number (square / 8 + 1).
pub open spec fn spec_chess_notation(position: nat) -> Seq<char> {
    seq![file_letter(position as int)] + decimal(position / 8 + 1)
}

/// A move in coordinate notation: both squares, then the promotion letter if any.
pub open spec fn spec_move_notation(old_position: nat, new_position: nat, promoted_to: Option<Promotion>) -> Seq<char> {
    spec_chess_notation(old_position) + spec_chess_notation(new_position) + spec_promotion_output(promoted_to)
}

fn get_row_from_number(row: usize) -> (r: String)
    ensures
        r@ == seq![file_letter(row as int)],
{
    match row % 8 {
        0 => {
            proof {
                reveal_strlit("a");
            }
            String::from_str("a")
        },
        1 => {
            proof {
                reveal_strlit("b");
            }
            String::from_str("b")
        },
        2 => {
            proof {
                reveal_strlit("c");
            }
            String::from_str("c")
        },
        3 => {
            proof {
                reveal_strlit("d");
            }
            String::from_str("d")
        },
        4 => {
            proof {
                reveal_strlit("e");
            }
            String::from_str("e")
        },
        5 => {
            proof {
                reveal_strlit("f");
            }
            String::from_str("f")
        },
        6 => {
            proof {
                reveal_strlit("g");
            }
            String::from_str("g")
        },
        _ => {
            proof {
                reveal_strlit("h");
            }
            String::from_str("h")
        },
    }
}

fn digit_str(d: usize) -> (r: &'static str)
    requires
        d < 10,
    ensures
        r@ == seq![digit_char(d as int)],
{
    if d == 0 {
        proof {
            reveal_strlit("0");
        }
        "0"
    } else if d == 1 {
        proof {
            reveal_strlit("1");
        }
        "1"
    } else if d == 2 {
        proof {
            reveal_strlit("2");
        }
        "2"
    } else if d == 3 {
        proof {
            reveal_strlit("3");
        }
        "3"
    } else if d == 4 {
        proof {
            reveal_strlit("4");
        }
        "4"
    } else if d == 5 {
        proof {
            reveal_strlit("5");
        }
        "5"
    } else if d == 6 {
        proof {
            reveal_strlit("6");
        }
        "6"
    } else if d == 7 {
        proof {
            reveal_strlit("7");
        }
        "7"
    } else if d == 8 {
        proof {
            reveal_strlit("8");
        }
        "8"
    } else {
        proof {
            reveal_strlit("9");
        }
        "9"
    }
}

/// The decimal representation of `n`.
pub fn number_to_decimal(n: usize) -> (r: String)
    ensures
        r@ == decimal(n as nat),
    decreases n,
{
    if n < 10 {
        let digits = String::from_str(digit_str(n));
        digits
    } else {
        let mut digits = number_to_decimal(n / 10);
        digits.append(digit_str(n % 10));
        digits
    }
}

/// A square in coordinate notation, such as "e4" for square 28.
pub fn convert_number_to_chess_notation(position: usize) -> (r: String)
    ensures
        r@ == spec_chess_notation(position as nat),
{
    let mut row = get_row_from_number(position);
    let column = position / 8 + 1;
    let rank = number_to_decimal(column);
    row.append(rank.as_str());
    row
}

/// A move in coordinate notation, such as "e7e8Q".
pub fn move_notation(old_position: usize, new_position: usize, promoted_to: Option<Promotion>) -> (r: String)
    ensures
        r@ == spec_move_notation(old_position as nat, new_position as nat, promoted_to),
{
    let mut notation = convert_number_to_chess_notation(old_position);
    let new_field = convert_number_to_chess_notation(new_position);
    let promoted = convert_promotion_to_output_string(promoted_to);
    notation.append(new_field.as_str());
    notation.append(promoted.as_str());
    notation
}

proof fn lemma_square_notation(p: usize)
    requires
        p < 64,
    ensures
        spec_chess_notation(p as nat).len() == 2,
        is_file_letter(spec_chess_notation(p as nat)[0]),
        is_rank_digit(spec_chess_notation(p as nat)[1]),
        spec_square_of(spec_chess_notation(p as nat)[0], spec_chess_notation(p as nat)[1]) == p,
{
    let rank = p / 8 + 1;
    assert(1 <= rank <= 8);
    assert(decimal(rank as nat) == seq![digit_char(rank as int)]);
    let f = p % 8;
    assert(p == (rank - 1) * 8 + f);
    assert(('a' as int) == 97 && ('h' as int) == 104 && ('1' as int) == 49 && ('8' as int) == 56);
}

/// A move between squares of the board written in coordinate notation reads back as the same
/// move, when it promotes to nothing or to a queen (the other promotion letters written, N, B and
/// R, are not among those read).
pub proof fn law_move_notation_reads_back(from: usize, to: usize, promoted_to: Option<Promotion>)
    requires
        from < 64,
        to < 64,
        promoted_to is None || promoted_to == Some(Promotion::Queen),
    ensures
        spec_parse_uci(spec_move_notation(from as nat, to as nat, promoted_to))
            == Some(PossibleMove { from, to, promoted_to }),
{
    lemma_square_notation(from);
    lemma_square_notation(to);
    let s = spec_move_notation(from as nat, to as nat, promoted_to);
    let a = spec_chess_notation(from as nat);
    let b = spec_chess_notation(to as nat);
    assert(s[0] == a[0] && s[1] == a[1] && s[2] == b[0] && s[3] == b[1]);
    if promoted_to is None {
        assert(s.len() == 4);
    } else {
        assert(s.len() == 5 && s[4] == 'Q');
    }
}

} // verus!

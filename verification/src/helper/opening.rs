use vstd::prelude::*;
use vstd::string::*;
use dashmap::DashMap;
use crate::board::board::Chessboard;
use crate::board::fen::{fen_readable, spec_board_from_fen};
use crate::helper::position_to_usize::{
    get_position_from_input, get_row_from_string, opening_line_ok, spec_position_id, spec_row_from_string,
};

verus! {

/// A move of the opening book, from one square to another.
#[derive(Debug, Clone, Copy)]
pub struct OpeningMove {
    pub from: usize,
    pub to: usize,
}

/// Whether `part` occurs in `text` at index `i`.
pub open spec fn occurs_at(text: Seq<char>, part: Seq<char>, i: int) -> bool {
    0 <= i && i + part.len() <= text.len() && text.subrange(i, i + part.len()) == part
}

/// Whether `part` occurs somewhere in `text`.
pub open spec fn contains_text(text: Seq<char>, part: Seq<char>) -> bool {
    exists|i: int| occurs_at(text, part, i)
}

/// A line of the opening book that starts a new position holds "pos" somewhere.
pub fn is_position_line(line: &str) -> (r: bool)
    ensures
        r == contains_text(line@, seq!['p', 'o', 's']),
{
    let n = line.unicode_len();
    let ghost part = seq!['p', 'o', 's'];
    if n < 3 {
        assert forall|i: int| !occurs_at(line@, part, i) by {}
        return false;
    }
    let mut i: usize = 0;
    while i < n - 2
        invariant
            n == line@.len(),
            n >= 3,
            i <= n - 2,
            part == seq!['p', 'o', 's'],
            forall|j: int| 0 <= j < i ==> !occurs_at(line@, part, j),
        decreases n - i,
    {
        if line.get_char(i) == 'p' && line.get_char(i + 1) == 'o' && line.get_char(i + 2) == 's' {
            assert(line@[i as int] == 'p' && line@[i + 1] == 'o' && line@[i + 2] == 's');
            assert(line@.subrange(i as int, i + 3) =~= part);
            assert(occurs_at(line@, part, i as int));
            return true;
        }
        assert(!occurs_at(line@, part, i as int)) by {
            if occurs_at(line@, part, i as int) {
                assert(line@.subrange(i as int, i + 3)[0] == 'p');
                assert(line@.subrange(i as int, i + 3)[1] == 'o');
                assert(line@.subrange(i as int, i + 3)[2] == 's');
            }
        }
        i = i + 1;
    }
    assert forall|j: int| !occurs_at(line@, part, j) by {}
    false
}

/// The position string of a position line: everything after its first four characters.
pub fn position_of_line(line: &str) -> (r: String)
    ensures
        r@ == if line@.len() >= 4 { line@.skip(4) } else { Seq::<char>::empty() },
{
    let n = line.unicode_len();
    if n < 4 {
        proof {
            reveal_strlit("");
        }
        return String::from_str("");
    }
    let rest = line.substring_char(4, n);
    assert(rest@ =~= line@.skip(4));
    String::from_str(rest)
}

/// Whether a move line of the opening book can be read: two squares, each a file letter and a
/// rank digit, whose numbers stay in range.
pub fn is_opening_move_line(line: &str) -> (r: bool)
    ensures
        r == opening_line_ok(line@),
{
    let n = line.unicode_len();
    if n < 4 {
        return false;
    }
    let c1 = line.get_char(1);
    let c3 = line.get_char(3);
    if !('0' <= c1 && c1 <= '9' && '0' <= c3 && c3 <= '9') {
        return false;
    }
    let from_row = get_row_from_string(line.substring_char(0, 1));
    let to_row = get_row_from_string(line.substring_char(2, 3));
    assert(line@.subrange(0, 1) =~= seq![line@[0]]);
    assert(line@.subrange(2, 3) =~= seq![line@[2]]);
    let from_column = (c1 as u32 - '0' as u32) as u64;
    let to_column = (c3 as u32 - '0' as u32) as u64;
    from_column >= 1 && from_row as u64 + (from_column - 1) * 8 >= 1
        && to_column >= 1 && to_row as u64 + (to_column - 1) * 8 >= 1
}

/// The concurrent map of `dashmap`, seen from here only as a value.
#[verifier::external_type_specification]
#[verifier::external_body]
#[verifier::reject_recursive_types(K)]
#[verifier::reject_recursive_types(V)]
#[verifier::reject_recursive_types(S)]
pub struct ExDashMap<K, V, S>(dashmap::DashMap<K, V, S>);

/// What an opening book map holds: for each position key, its moves in the order they were filed.
pub uninterp spec fn book_contents(m: DashMap<u64, Vec<OpeningMove>>) -> Map<u64, Seq<OpeningMove>>;

/// `DashMap::new`: an empty map.
#[verifier::external_body]
fn new_book() -> (book: DashMap<u64, Vec<OpeningMove>>)
    ensures
        book_contents(book) == empty_book(),
{
    DashMap::new()
}

/// `DashMap::insert`: files `moves` under `key`, replacing what was filed there before.
#[verifier::external_body]
fn book_insert(m: &mut DashMap<u64, Vec<OpeningMove>>, key: u64, moves: Vec<OpeningMove>)
    ensures
        book_contents(*final(m)) == book_contents(*old(m)).insert(key, moves@),
{
    m.insert(key, moves);
}

/// `DashMap::entry(key).or_insert(Vec::new())`, then `push`: appends `mv` to the moves filed
/// under `key`, starting from no moves where nothing was filed.
#[verifier::external_body]
fn book_push(m: &mut DashMap<u64, Vec<OpeningMove>>, key: u64, mv: OpeningMove)
    ensures
        book_contents(*final(m)) == book_contents(*old(m)).insert(
            key,
            filed_moves(book_contents(*old(m)), key).push(mv),
        ),
{
    m.entry(key).or_insert(Vec::new()).push(mv);
}

/// The book with no position in it.
pub open spec fn empty_book() -> Map<u64, Seq<OpeningMove>> {
    Map::empty()
}

/// The moves filed under `key`, none if nothing is.
pub open spec fn filed_moves(book: Map<u64, Seq<OpeningMove>>, key: u64) -> Seq<OpeningMove> {
    if book.contains_key(key) {
        book[key]
    } else {
        Seq::empty()
    }
}

/// A book line that starts a new position holds "pos".
pub open spec fn is_position_text(line: Seq<char>) -> bool {
    contains_text(line, seq!['p', 'o', 's'])
}

/// The position string of a position line: everything after its first four characters.
pub open spec fn fen_of_line(line: Seq<char>) -> Seq<char> {
    if line.len() >= 4 {
        line.skip(4)
    } else {
        Seq::<char>::empty()
    }
}

/// A book line can be read: a position line whose position string can be read, or a move line
/// that names two squares.
pub open spec fn opening_line_readable(line: Seq<char>) -> bool {
    if is_position_text(line) {
        fen_readable(fen_of_line(line))
    } else {
        opening_line_ok(line)
    }
}

/// Every line of the book can be read.
pub open spec fn opening_lines_readable(lines: Seq<String>) -> bool {
    forall|i: int| 0 <= i < lines.len() ==> opening_line_readable(#[trigger] lines[i]@)
}

/// The move that a move line names.
pub open spec fn book_move_of_line(line: Seq<char>) -> OpeningMove {
    OpeningMove {
        from: spec_position_id(seq![line[0]], (line[1] as int) - ('0' as int)) as usize,
        to: spec_position_id(seq![line[2]], (line[3] as int) - ('0' as int)) as usize,
    }
}

/// The key of the starting position, under which moves are filed before any position line.
pub open spec fn start_key() -> u64 {
    spec_board_from_fen("rnbqkbnr/pppppppp/8/8/8/8/PPPPPPPP/RNBQKBNR w KQkq - 0 1"@).zobrist_key
}

/// After the first `n` lines: the key of the last position read, and the book built so far.
/// A position line files an empty list under its position's key, replacing what was there; a
/// move line adds its move to the list of the last position read.
pub open spec fn spec_book_after(lines: Seq<String>, n: int) -> (u64, Map<u64, Seq<OpeningMove>>)
    decreases n,
{
    if n <= 0 {
        (start_key(), empty_book())
    } else {
        let (key, book) = spec_book_after(lines, n - 1);
        let line = lines[n - 1]@;
        if is_position_text(line) {
            let k = spec_board_from_fen(fen_of_line(line)).zobrist_key;
            (k, book.insert(k, Seq::empty()))
        } else {
            (key, book.insert(key, filed_moves(book, key).push(book_move_of_line(line))))
        }
    }
}

/// The opening book that the lines describe.
pub open spec fn spec_opening_book(lines: Seq<String>) -> Map<u64, Seq<OpeningMove>> {
    spec_book_after(lines, lines.len() as int).1
}

/// Builds the opening book from the lines of the book file: the moves of each position, under
/// the position's key. Nothing comes back when a line cannot be read.
pub fn create_opening_map(lines: Vec<String>) -> (book: Option<DashMap<u64, Vec<OpeningMove>>>)
    ensures
        book is Some <==> opening_lines_readable(lines@),
        book matches Some(m) ==> book_contents(m) == spec_opening_book(lines@),
{
    let mut openings = new_book();
    let mut board = Chessboard::default();
    let mut i: usize = 0;
    while i < lines.len()
        invariant
            i <= lines.len(),
            board.zobrist_key == spec_book_after(lines@, i as int).0,
            book_contents(openings) == spec_book_after(lines@, i as int).1,
            forall|j: int| 0 <= j < i ==> opening_line_readable(#[trigger] lines@[j]@),
        decreases lines.len() - i,
    {
        let line = &lines[i];
        if is_position_line(line.as_str()) {
            let fen = position_of_line(line.as_str());
            if !board.try_create_position_from_input_string(fen) {
                return None;
            }
            book_insert(&mut openings, board.zobrist_key, Vec::new());
        } else {
            if !is_opening_move_line(line.as_str()) {
                return None;
            }
            let (from, to) = get_position_from_input(line.clone());
            book_push(&mut openings, board.zobrist_key, OpeningMove { from, to });
        }
        proof {
            assert(lines@[i as int]@ == line@);
        }
        i = i + 1;
    }
    Some(openings)
}

} // verus!

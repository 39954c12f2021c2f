use vstd::prelude::*;
use vstd::string::*;
use crate::board::board::{Chessboard, move_is_safe, spec_move_figure};
use crate::board::fen::spec_board_from_fen;
use crate::figures::color::Color;
use crate::helper::position_to_usize::{get_validated_position_from_input, spec_parse_uci};
use crate::engine::sender::{decimal, digit_char};

verus! {

/// Whether two strings hold the same characters.
pub fn str_equals(a: &str, b: &str) -> (r: bool)
    ensures
        r == (a@ == b@),
{
    let n = a.unicode_len();
    if n != b.unicode_len() {
        return false;
    }
    let mut i: usize = 0;
    while i < n
        invariant
            i <= n,
            n == a@.len(),
            n == b@.len(),
            forall|j: int| 0 <= j < i ==> a@[j] == b@[j],
        decreases n - i,
    {
        if a.get_char(i) != b.get_char(i) {
            return false;
        }
        i = i + 1;
    }
    assert(a@ =~= b@);
    true
}

/// What the engine does on a line of UCI input.
#[derive(Clone, Copy, Debug, PartialEq, Eq, Structural)]
pub enum UciAction {
    /// "uci": name the engine and its author.
    Identify,
    /// "isready": answer that the engine is ready.
    ReportReady,
    /// "ucinewgame": forget the positions of the last game.
    NewGame,
    /// "position": set up the board and play the listed moves.
    SetPosition,
    /// "go": find and send a move.
    Search,
    /// "debug": count the positions a few moves deep.
    Debug,
    /// "quit": stop the engine.
    Quit,
    /// Anything else, an empty line too: stop the engine with an error.
    Unknown,
}

/// The word that decides the action: the first word of the line, or "stop" for an empty line.
pub open spec fn first_word(commands: Seq<Seq<char>>) -> Seq<char> {
    if commands.len() == 0 {
        "stop"@
    } else {
        commands[0]
    }
}

/// The action that a word asks for.
pub open spec fn spec_action(word: Seq<char>) -> UciAction {
    if word == "uci"@ {
        UciAction::Identify
    } else if word == "isready"@ {
        UciAction::ReportReady
    } else if word == "ucinewgame"@ {
        UciAction::NewGame
    } else if word == "position"@ {
        UciAction::SetPosition
    } else if word == "go"@ {
        UciAction::Search
    } else if word == "debug"@ {
        UciAction::Debug
    } else if word == "quit"@ {
        UciAction::Quit
    } else {
        UciAction::Unknown
    }
}

/// The action that a line of UCI input, split into words, asks for.
pub fn map_input_to_action(commands: &Vec<&str>) -> (r: UciAction)
    ensures
        r == spec_action(first_word(command_views(commands@))),
{
    let differentiation: &str = if commands.len() == 0 { "stop" } else { commands[0] };
    proof {
        if commands.len() > 0 {
            assert(command_views(commands@)[0] == commands@[0]@);
        }
    }
    if str_equals(differentiation, "uci") {
        UciAction::Identify
    } else if str_equals(differentiation, "isready") {
        UciAction::ReportReady
    } else if str_equals(differentiation, "ucinewgame") {
        UciAction::NewGame
    } else if str_equals(differentiation, "position") {
        UciAction::SetPosition
    } else if str_equals(differentiation, "go") {
        UciAction::Search
    } else if str_equals(differentiation, "debug") {
        UciAction::Debug
    } else if str_equals(differentiation, "quit") {
        UciAction::Quit
    } else {
        UciAction::Unknown
    }
}

/// The number written by the decimal digits `s`.
pub open spec fn digits_value(s: Seq<char>) -> int
    decreases s.len(),
{
    if s.len() == 0 {
        0
    } else {
        digits_value(s.drop_last()) * 10 + ((s.last() as int) - ('0' as int))
    }
}

/// Every character of `s` is a decimal digit.
pub open spec fn all_digits(s: Seq<char>) -> bool {
    forall|i: int| 0 <= i < s.len() ==> '0' <= #[trigger] s[i] <= '9'
}

/// The unsigned 64-bit number a string reads as: an optional '+', then at least one decimal
/// digit and nothing else, with a value that fits.
pub open spec fn spec_parse_u64(s: Seq<char>) -> Option<u64> {
    let body = if s.len() > 0 && s[0] == '+' { s.drop_first() } else { s };
    if body.len() > 0 && all_digits(body) && digits_value(body) <= u64::MAX {
        Some(digits_value(body) as u64)
    } else {
        None
    }
}

proof fn lemma_digits_value_prefix(s: Seq<char>, k: int)
    requires
        0 <= k <= s.len(),
        all_digits(s),
    ensures
        0 <= digits_value(s.take(k)) <= digits_value(s),
    decreases s.len() - k,
{
    if k < s.len() {
        lemma_digits_value_prefix(s, k + 1);
        assert(s.take(k + 1).drop_last() =~= s.take(k));
        assert('0' <= s[k] <= '9');
    } else {
        assert(s.take(k) =~= s);
        lemma_digits_value_nonneg(s);
    }
}

proof fn lemma_digits_value_nonneg(s: Seq<char>)
    requires
        all_digits(s),
    ensures
        digits_value(s) >= 0,
    decreases s.len(),
{
    if s.len() > 0 {
        assert(all_digits(s.drop_last()));
        lemma_digits_value_nonneg(s.drop_last());
        assert('0' <= s[s.len() - 1] <= '9');
    }
}

/// Reads a string as an unsigned 64-bit number, as `str::parse::<u64>` does.
pub fn parse_u64(s: &str) -> (r: Option<u64>)
    ensures
        r == spec_parse_u64(s@),
{
    let n = s.unicode_len();
    let start: usize = if n > 0 && s.get_char(0) == '+' { 1 } else { 0 };
    let ghost body = if s@.len() > 0 && s@[0] == '+' { s@.drop_first() } else { s@ };
    assert(body =~= s@.subrange(start as int, n as int));
    if start >= n {
        return None;
    }
    let mut value: u64 = 0;
    let mut i: usize = start;
    while i < n
        invariant
            start <= i <= n,
            n == s@.len(),
            body =~= s@.subrange(start as int, n as int),
            body == (if s@.len() > 0 && s@[0] == '+' { s@.drop_first() } else { s@ }),
            body.len() > 0,
            all_digits(body.take(i - start)),
            value == digits_value(body.take(i - start)),
        decreases n - i,
    {
        let c = s.get_char(i);
        let ghost k = i - start;
        assert(body[k] == c);
        if !('0' <= c && c <= '9') {
            assert(!all_digits(body));
            return None;
        }
        let d = (c as u32 - '0' as u32) as u64;
        assert(body.take(k + 1).drop_last() =~= body.take(k));
        assert(body.take(k + 1).last() == c);
        assert(all_digits(body.take(k + 1)));
        assert(digits_value(body.take(k + 1)) == value * 10 + d);
        let times_ten = value.checked_mul(10);
        if times_ten.is_none() {
            proof {
                if all_digits(body) {
                    lemma_digits_value_prefix(body, k + 1);
                    lemma_digits_value_nonneg(body.take(k));
                }
            }
            return None;
        }
        let next = times_ten.unwrap().checked_add(d);
        if next.is_none() {
            proof {
                if all_digits(body) {
                    lemma_digits_value_prefix(body, k + 1);
                }
            }
            return None;
        }
        value = next.unwrap();
        i = i + 1;
    }
    assert(body.take(n - start) =~= body);
    Some(value)
}

/// The first index at which `commands` holds `key`, from index `i` on.
pub open spec fn index_of_command(commands: Seq<Seq<char>>, key: Seq<char>, i: int) -> Option<int>
    decreases commands.len() - i,
{
    if i < 0 || i >= commands.len() {
        None
    } else if commands[i] == key {
        Some(i)
    } else {
        index_of_command(commands, key, i + 1)
    }
}

/// The number that follows the first `key` among the `commands`, if it reads as one.
pub open spec fn spec_command_value(commands: Seq<Seq<char>>, key: Seq<char>) -> Option<u64> {
    match index_of_command(commands, key, 0) {
        Some(i) => if i + 1 < commands.len() {
            spec_parse_u64(commands[i + 1])
        } else {
            None
        },
        None => None,
    }
}

/// The characters of each command.
pub open spec fn command_views(commands: Seq<&str>) -> Seq<Seq<char>> {
    commands.map_values(|c: &str| c@)
}

/// The number given after `key` in the commands of a UCI line, such as "wtime 30000".
pub fn get_value_from_commands(commands: &Vec<&str>, key: &str) -> (r: Option<u64>)
    ensures
        r == spec_command_value(command_views(commands@), key@),
{
    let ghost views = command_views(commands@);
    let mut i: usize = 0;
    while i < commands.len()
        invariant
            i <= commands.len(),
            views == command_views(commands@),
            index_of_command(views, key@, 0) == index_of_command(views, key@, i as int),
        decreases commands.len() - i,
    {
        if str_equals(commands[i], key) {
            if i + 1 < commands.len() {
                return parse_u64(commands[i + 1]);
            }
            return None;
        }
        i = i + 1;
    }
    None
}

/// The thinking time for a move, in milliseconds: the exact move time less 100 when one is
/// given; 10 seconds without a clock; otherwise the remaining time shared over the moves to go
/// plus two (or over 40 moves), plus the increment, kept between 1 and 15 seconds.
pub open spec fn spec_time(commands: Seq<Seq<char>>, overall_time_key: Seq<char>, increment_key: Seq<char>) -> int {
    match spec_command_value(commands, "movetime"@) {
        Some(exact) => exact - 100,
        None => match spec_command_value(commands, overall_time_key) {
            None => 10000,
            Some(given) => {
                let shared: int = match spec_command_value(commands, "movestogo"@) {
                    Some(moves) => (given as int) / (moves + 2),
                    None => (given as int) / 40,
                };
                let user_time = match spec_command_value(commands, increment_key) {
                    Some(increment) => shared + increment,
                    None => shared,
                };
                if user_time > 15000 {
                    15000
                } else if user_time < 1000 {
                    1000
                } else {
                    user_time
                }
            },
        },
    }
}

/// The time arithmetic stays in range: a move time of at least 100, and no overflow in the
/// moves to go plus two or in adding the increment.
pub open spec fn time_in_range(commands: Seq<Seq<char>>, overall_time_key: Seq<char>, increment_key: Seq<char>) -> bool {
    &&& (spec_command_value(commands, "movetime"@) matches Some(exact) ==> exact >= 100)
    &&& (spec_command_value(commands, "movestogo"@) matches Some(moves) ==> moves + 2 <= u64::MAX)
    &&& (spec_command_value(commands, overall_time_key) matches Some(given) ==> {
        let shared: int = match spec_command_value(commands, "movestogo"@) {
            Some(moves) => (given as int) / (moves + 2),
            None => (given as int) / 40,
        };
        spec_command_value(commands, increment_key) matches Some(increment) ==> shared + increment <= u64::MAX
    })
}

/// Whether the time arithmetic of a "go" command stays in range (see `time_in_range`).
pub fn time_is_in_range(commands: &Vec<&str>, overall_time_key: &str, increment_key: &str) -> (r: bool)
    ensures
        r == time_in_range(command_views(commands@), overall_time_key@, increment_key@),
{
    if let Some(exact) = get_value_from_commands(commands, "movetime") {
        if exact < 100 {
            return false;
        }
    }
    let moves_to_go = get_value_from_commands(commands, "movestogo");
    if let Some(moves) = moves_to_go {
        if moves > u64::MAX - 2 {
            return false;
        }
    }
    if let Some(given) = get_value_from_commands(commands, overall_time_key) {
        let shared = match moves_to_go {
            Some(moves) => given / (moves + 2),
            None => given / 40,
        };
        if let Some(increment) = get_value_from_commands(commands, increment_key) {
            if shared > u64::MAX - increment {
                return false;
            }
        }
    }
    true
}

/// The thinking time for a move from the clock values of a "go" command.
pub fn get_time(commands: &Vec<&str>, overall_time_key: &str, increment_key: &str) -> (r: u64)
    requires
        time_in_range(command_views(commands@), overall_time_key@, increment_key@),
    ensures
        r == spec_time(command_views(commands@), overall_time_key@, increment_key@),
{
    let mut user_time: u64 = 0;
    // a fixed time per move
    let exact_movetime_opt = get_value_from_commands(commands, "movetime");
    if let Some(exact_movetime) = exact_movetime_opt {
        // keep some time to send the move
        return exact_movetime - 100;
    }
    let given_time_opt = get_value_from_commands(commands, overall_time_key);
    // no clock: take ten seconds
    if given_time_opt.is_none() {
        return 10000;
    }
    let given_time = given_time_opt.unwrap();
    // share the remaining time over the moves until the next time control
    let moves_until_increment_opt = get_value_from_commands(commands, "movestogo");
    if let Some(move_until_increment) = moves_until_increment_opt {
        user_time = user_time + given_time / (move_until_increment + 2);
    } else {
        user_time = user_time + given_time / 40;
    }
    let increment_opt = get_value_from_commands(commands, increment_key);
    if let Some(increment) = increment_opt {
        user_time = user_time + increment;
    }
    if user_time > 15000 {
        return 15000;
    }
    if user_time < 1000 {
        return 1000;
    }
    user_time
}

/// The thinking time for the side to move: white's clock keys or black's.
pub open spec fn spec_time_for_move(commands: Seq<Seq<char>>, color: Color) -> int {
    match color {
        Color::White => spec_time(commands, "wtime"@, "winc"@),
        Color::Black => spec_time(commands, "btime"@, "binc"@),
    }
}

/// The thinking time for the side to move, from its clock keys.
pub fn get_time_for_move(commands: &Vec<&str>, color: Color) -> (r: u64)
    requires
        match color {
            Color::White => time_in_range(command_views(commands@), "wtime"@, "winc"@),
            Color::Black => time_in_range(command_views(commands@), "btime"@, "binc"@),
        },
    ensures
        r == spec_time_for_move(command_views(commands@), color),
{
    match color {
        Color::White => get_time(commands, "wtime", "winc"),
        Color::Black => get_time(commands, "btime", "binc"),
    }
}

/// A token of a "position" command that names a move (anything but "position", "startpos" and
/// "moves").
pub open spec fn is_move_token(t: Seq<char>) -> bool {
    t != "position"@ && t != "startpos"@ && t != "moves"@
}

/// The board after a move token: the move it names is played; a token naming no move changes
/// nothing.
#[verifier::opaque]
pub open spec fn apply_move_token(board: Chessboard, t: Seq<char>) -> Chessboard {
    match spec_parse_uci(t) {
        Some(m) => spec_move_figure(board, m.from as int, m.to as int, m.promoted_to),
        None => board,
    }
}

/// Notes a reached position: the first time among the positions seen once, the second time
/// among those seen twice.
pub open spec fn record_position(once: Seq<u64>, twice: Seq<u64>, key: u64) -> (Seq<u64>, Seq<u64>) {
    if !once.contains(key) {
        (once.push(key), twice)
    } else if !twice.contains(key) {
        (once, twice.push(key))
    } else {
        (once, twice)
    }
}

/// The standard starting position.
#[verifier::opaque]
pub open spec fn start_position() -> Chessboard {
    spec_board_from_fen("rnbqkbnr/pppppppp/8/8/8/8/PPPPPPPP/RNBQKBNR w KQkq - 0 1"@)
}

/// The board and the positions seen once and twice after the tokens of a "position startpos
/// moves ..." command, played from the starting position.
pub open spec fn replay(tokens: Seq<Seq<char>>) -> (Chessboard, Seq<u64>, Seq<u64>)
    decreases tokens.len(),
{
    if tokens.len() == 0 {
        (start_position(), Seq::empty(), Seq::empty())
    } else {
        let (board, once, twice) = replay(tokens.drop_last());
        let t = tokens.last();
        if is_move_token(t) {
            let next = apply_move_token(board, t);
            let (once2, twice2) = record_position(once, twice, next.zobrist_key);
            (next, once2, twice2)
        } else {
            (board, once, twice)
        }
    }
}

/// Every move named by the tokens can be played on the board reached before it.
pub open spec fn replay_is_safe(tokens: Seq<Seq<char>>) -> bool
    decreases tokens.len(),
{
    if tokens.len() == 0 {
        true
    } else {
        &&& replay_is_safe(tokens.drop_last())
        &&& (is_move_token(tokens.last()) ==> move_token_is_safe(replay(tokens.drop_last()).0, tokens.last()))
    }
}

/// The move a token names can be played (or it names none).
pub open spec fn move_token_is_safe(board: Chessboard, t: Seq<char>) -> bool {
    match spec_parse_uci(t) {
        Some(m) => move_is_safe(board, m.from as int, m.to as int, m.promoted_to),
        None => true,
    }
}

fn play_move_token(board: &mut Chessboard, t: &str)
    requires
        move_token_is_safe(*old(board), t@),
    ensures
        *final(board) == apply_move_token(*old(board), t@),
{
    reveal(apply_move_token);
    board.update_position_from_uci_input(t);
}

fn contains_key(keys: &Vec<u64>, key: u64) -> (r: bool)
    ensures
        r == keys@.contains(key),
{
    let mut i: usize = 0;
    while i < keys.len()
        invariant
            i <= keys.len(),
            forall|j: int| 0 <= j < i ==> keys@[j] != key,
        decreases keys.len() - i,
    {
        if keys[i] == key {
            assert(keys@[i as int] == key);
            return true;
        }
        i = i + 1;
    }
    false
}

/// Sets the board to the position of a "position startpos moves ..." command and notes which
/// positions were reached once and which twice, to recognise repetitions.
pub fn update_board(
    move_vec: Vec<&str>,
    board: &mut Chessboard,
    once_played_positions: &mut Vec<u64>,
    twice_played_positions: &mut Vec<u64>,
)
    requires
        replay_is_safe(command_views(move_vec@)),
    ensures
        (*final(board), final(once_played_positions)@, final(twice_played_positions)@) == replay(
            command_views(move_vec@),
        ),
{
    let ghost tokens = command_views(move_vec@);
    board.set_to_default();
    assert(*board == start_position()) by {
        reveal(start_position);
    }
    once_played_positions.clear();
    twice_played_positions.clear();
    let mut i: usize = 0;
    while i < move_vec.len()
        invariant
            i <= move_vec.len(),
            tokens == command_views(move_vec@),
            replay_is_safe(tokens),
            (*board, once_played_positions@, twice_played_positions@) == replay(tokens.take(i as int)),
        decreases move_vec.len() - i,
    {
        let single_move = move_vec[i];
        proof {
            assert(tokens.take(i + 1).drop_last() =~= tokens.take(i as int));
            assert(tokens.take(i + 1).last() == single_move@);
            lemma_replay_is_safe_prefix(tokens, i + 1);
        }
        // the words of the command are not moves
        if !str_equals(single_move, "position") && !str_equals(single_move, "startpos") && !str_equals(single_move, "moves") {
            play_move_token(board, single_move);
            // few moves: a linear search is fast enough
            if !contains_key(once_played_positions, board.zobrist_key) {
                once_played_positions.push(board.zobrist_key);
            } else if !contains_key(twice_played_positions, board.zobrist_key) {
                twice_played_positions.push(board.zobrist_key);
            }
        }
        i = i + 1;
    }
    assert(tokens.take(move_vec.len() as int) =~= tokens);
}

/// Whether every move of a "position startpos moves ..." command can be played on the board
/// reached before it.
pub fn position_commands_are_playable(move_vec: &Vec<&str>) -> (r: bool)
    ensures
        r == replay_is_safe(command_views(move_vec@)),
{
    let ghost tokens = command_views(move_vec@);
    let mut board = Chessboard::default();
    assert(board == start_position()) by {
        reveal(start_position);
    }
    let mut i: usize = 0;
    while i < move_vec.len()
        invariant
            i <= move_vec.len(),
            tokens == command_views(move_vec@),
            replay_is_safe(tokens.take(i as int)),
            board == replay(tokens.take(i as int)).0,
        decreases move_vec.len() - i,
    {
        let single_move = move_vec[i];
        proof {
            assert(tokens.take(i + 1).drop_last() =~= tokens.take(i as int));
            assert(tokens.take(i + 1).last() == single_move@);
        }
        if !str_equals(single_move, "position") && !str_equals(single_move, "startpos") && !str_equals(single_move, "moves") {
            if let Some(m) = get_validated_position_from_input(single_move) {
                if !board.is_move_safe(m.from, m.to, m.promoted_to) {
                    proof {
                        if replay_is_safe(tokens) {
                            lemma_replay_is_safe_prefix(tokens, i + 1);
                        }
                    }
                    return false;
                }
            }
            play_move_token(&mut board, single_move);
        }
        i = i + 1;
    }
    assert(tokens.take(move_vec.len() as int) =~= tokens);
    true
}

proof fn lemma_replay_is_safe_prefix(tokens: Seq<Seq<char>>, k: int)
    requires
        0 <= k <= tokens.len(),
        replay_is_safe(tokens),
    ensures
        replay_is_safe(tokens.take(k)),
    decreases tokens.len() - k,
{
    if k < tokens.len() {
        lemma_replay_is_safe_prefix(tokens, k + 1);
        assert(tokens.take(k + 1).drop_last() =~= tokens.take(k));
    } else {
        assert(tokens.take(k) =~= tokens);
    }
}

proof fn lemma_digit_char(d: int)
    requires
        0 <= d < 10,
    ensures
        (digit_char(d) as int) - ('0' as int) == d,
        '0' <= digit_char(d) <= '9',
{
    assert(('0' as int) == 48 && ('1' as int) == 49 && ('2' as int) == 50 && ('3' as int) == 51
        && ('4' as int) == 52 && ('5' as int) == 53 && ('6' as int) == 54 && ('7' as int) == 55
        && ('8' as int) == 56 && ('9' as int) == 57);
}

proof fn lemma_decimal_digits(n: nat)
    ensures
        decimal(n).len() > 0,
        all_digits(decimal(n)),
        digits_value(decimal(n)) == n,
        decimal(n)[0] != '+',
    decreases n,
{
    if n >= 10 {
        lemma_decimal_digits(n / 10);
        let d = decimal(n);
        assert(d.drop_last() =~= decimal(n / 10));
        assert(d.last() == digit_char((n % 10) as int));
        lemma_digit_char((n % 10) as int);
        assert(digits_value(d) == digits_value(d.drop_last()) * 10 + ((d.last() as int) - ('0' as int)));
        assert(digits_value(d) == (n / 10) * 10 + (n % 10) as int);
        assert(all_digits(d)) by {
            assert forall|i: int| 0 <= i < d.len() implies '0' <= #[trigger] d[i] <= '9' by {
                if i < d.len() - 1 {
                    assert(d[i] == decimal(n / 10)[i]);
                }
            }
        }
        assert(d[0] == decimal(n / 10)[0]);
    } else {
        lemma_digit_char(n as int);
        let d = decimal(n);
        assert(d.drop_last() =~= Seq::<char>::empty());
        assert(digits_value(d) == digits_value(d.drop_last()) * 10 + ((d.last() as int) - ('0' as int)));
    }
}

/// A number written in decimal reads back as the same number.
pub proof fn law_decimal_reads_back(n: u64)
    ensures
        spec_parse_u64(decimal(n as nat)) == Some(n),
{
    lemma_decimal_digits(n as nat);
}

/// Every position noted as seen twice was noted as seen once, and neither list holds a position
/// twice.
pub proof fn law_repetitions_are_consistent(tokens: Seq<Seq<char>>)
    ensures
        forall|k: u64| replay(tokens).2.contains(k) ==> replay(tokens).1.contains(k),
        replay(tokens).1.no_duplicates(),
        replay(tokens).2.no_duplicates(),
    decreases tokens.len(),
{
    if tokens.len() > 0 {
        law_repetitions_are_consistent(tokens.drop_last());
        let (board, once, twice) = replay(tokens.drop_last());
        let t = tokens.last();
        if is_move_token(t) {
            let key = apply_move_token(board, t).zobrist_key;
            let (once2, twice2) = record_position(once, twice, key);
            assert forall|k: u64| twice2.contains(k) implies once2.contains(k) by {
                if !once.contains(key) {
                    assert(once.contains(k) ==> once2.contains(k)) by {
                        if once.contains(k) {
                            let i = choose|i: int| 0 <= i < once.len() && once[i] == k;
                            assert(once2[i] == k);
                        }
                    }
                } else if !twice.contains(key) {
                    if k != key {
                        let i = choose|i: int| 0 <= i < twice2.len() && twice2[i] == k;
                        assert(i < twice.len());
                        assert(twice.contains(k));
                    }
                }
            }
        }
    }
}

/// With a clock and no fixed move time, the thinking time stays between one and fifteen
/// seconds.
pub proof fn law_time_with_clock_is_bounded(commands: Seq<Seq<char>>, overall_time_key: Seq<char>, increment_key: Seq<char>)
    requires
        spec_command_value(commands, "movetime"@) is None,
        spec_command_value(commands, overall_time_key) is Some,
    ensures
        1000 <= spec_time(commands, overall_time_key, increment_key) <= 15000,
{
}

} // verus!

use vstd::prelude::*;
use std::collections::HashMap;
use crate::board::bitboard::{
    Bitboard, bit, bits, bitboard_of, fields_of, lemma_bits_zero, lemma_board_of_squares, lemma_fields_len,
    lemma_fields_len_bound, lemma_fields_nonempty, lemma_bitboard_of,
};
use vstd::arithmetic::power2::{pow2, lemma_pow2_unfold, lemma2_to64};
use crate::helper::magic_bitboards::helper::{
    get_magic_index, get_valid_moves_for_position_with_given_blockers, rook_attacks, bishop_attacks,
    slider_attacks_on, spec_magic_index,
};
use crate::helper::magic_bitboards::magic_bitboard::MagicBitboard;
use crate::helper::moves_by_field::{
    MoveInEveryDirection, get_bishop_blockers_for_field, get_moves_for_each_field, get_rook_blockers_for_field,
    rook_blocker_squares, bishop_blocker_squares, lemma_blocker_squares_len, lemma_blocker_squares_nonempty,
    step_square, step_squares, min_int, range_len,
};

verus! {

/// Magic factors for the rook tables, one per square (found once and kept, so that no search is
/// needed at start-up).
pub const ROOK_MAGIC_NUMBERS: [u64; 64] = [
    4647719420192360576u64,
    90073368279130112u64,
    2377909743478964288u64,
    9259425091857418240u64,
    9295448322724602922u64,
    2377906103292789288u64,
    7061670750025449732u64,
    72075324786999426u64,
    4644372549247105u64,
    2307039287796834305u64,
    703824889122816u64,
    11529355817924988929u64,
    140754676615168u64,
    562984607024640u64,
    577586686637195792u64,
    117234349274843264u64,
    9167178198695936u64,
    4508272587442368u64,
    27024346811736192u64,
    24912185377689600u64,
    2311504394870327296u64,
    2486269568833290376u64,
    2882484081558438224u64,
    434669931825774724u64,
    2594425231233787008u64,
    9223935132841345158u64,
    9223935545155002436u64,
    90089586889328640u64,
    20266750226990080u64,
    180216555012096128u64,
    9372571383886250242u64,
    9223513899626676356u64,
    198160764098316419u64,
    18031991773470720u64,
    9225131392914960640u64,
    4504150591668480u64,
    146369223428408320u64,
    140754676614656u64,
    2410133850167478u64,
    864695529756427649u64,
    140876001083393u64,
    162130858164117504u64,
    13837873080204132384u64,
    90353536245760040u64,
    2891315358952620160u64,
    7318557851516932u64,
    423382978134050u64,
    72343468145508353u64,
    140781511778432u64,
    576607270869148160u64,
    2305914478006440192u64,
    3459186932445610112u64,
    1180506087221367296u64,
    10736616970971514881u64,
    648799898627760384u64,
    4683679924736u64,
    71468834619409u64,
    9372009657998065669u64,
    2364741691050590258u64,
    1153203070315790361u64,
    1689262464698370u64,
    522980577076070410u64,
    2486567540854621700u64,
    9223408322953102758u64
];

/// Magic factors for the bishop tables, one per square.
pub const BISHOP_MAGIC_NUMBERS: [u64; 64] = [
    18581798595985920u64,
    225182738905571460u64,
    6757787516273664u64,
    19144810413687869u64,
    5634035288172288u64,
    4972539206380290592u64,
    4835185984818257984u64,
    28430630773654530u64,
    9818421395134612256u64,
    9009776373563520u64,
    2401335559456000u64,
    2555282211766464u64,
    1268879637090305u64,
    2594920043729387520u64,
    6917530201510380553u64,
    1155475674489687108u64,
    9227879210164486464u64,
    1242157902694187540u64,
    580964442129334528u64,
    294985792793686018u64,
    9233540346191872000u64,
    4645591514875176u64,
    18577902648035840u64,
    290763681561051777u64,
    1153635673113110528u64,
    22535590627770624u64,
    4611835587710706208u64,
    18023332142252096u64,
    9288743001276416u64,
    565148981395976u64,
    5630066537136452u64,
    288514136067819776u64,
    9223970196951142432u64,
    10412465413526924289u64,
    9223935691202267136u64,
    85570594092351616u64,
    1747396930599846144u64,
    2315186695537428480u64,
    73184594530403332u64,
    9228037300125303298u64,
    5371176992639041544u64,
    81489239677749008u64,
    324364866544480256u64,
    1171012602776520322u64,
    2323927916355780866u64,
    577058903859201056u64,
    1730516955124998404u64,
    2252629023392257u64,
    9547776398712375298u64,
    871587866948538377u64,
    2551315872874498u64,
    36063983605907584u64,
    17662684037184u64,
    144264859230438794u64,
    1130366712020996u64,
    27171136886308864u64,
    1408614787190784u64,
    1127550317371395u64,
    45064723301402626u64,
    11605776399524300304u64,
    2305843009282933249u64,
    74315040728023168u64,
    579141517412139520u64,
    1206966108893020232u64
];

/// The squares that can block a rook (`is_rook`) or a bishop on `position`.
pub open spec fn relevant_squares(position: int, is_rook: bool) -> Set<int> {
    if is_rook {
        rook_blocker_squares(position / 8, position % 8)
    } else {
        bishop_blocker_squares(position / 8, position % 8)
    }
}

/// The magic board of a slider on `position`: the squares that can block it, the magic factor,
/// and as index 64 minus the number of those squares.
pub open spec fn spec_magic_board(position: int, is_rook: bool) -> MagicBitboard {
    let relevant = relevant_squares(position, is_rook);
    MagicBitboard {
        relevant_fields: bitboard_of(relevant),
        magic_key: if is_rook { ROOK_MAGIC_NUMBERS[position] } else { BISHOP_MAGIC_NUMBERS[position] },
        index: (64 - fields_of(bitboard_of(relevant).board).len()) as u8,
    }
}

/// The magic board of every square for a rook (`is_rook`) or a bishop.
fn init_magic_arrays(is_rook: bool) -> (magic_bitboards: [MagicBitboard; 64])
    ensures
        forall|i: int| 0 <= i < 64 ==> #[trigger] magic_bitboards[i] == spec_magic_board(i, is_rook),
        forall|i: int| 0 <= i < 64 ==> 48 <= #[trigger] magic_bitboards[i].index < 64,
        forall|i: int| 0 <= i < 64 ==> #[trigger] magic_bitboards[i].index + fields_of(magic_bitboards[i].relevant_fields.board).len() == 64,
{
    let mut magic_bitboards: [MagicBitboard; 64] = [MagicBitboard { relevant_fields: Bitboard { board: 0 }, magic_key: 0, index: 0 }; 64];
    let mut column: usize = 0;
    while column < 8
        invariant
            column <= 8,
            forall|i: int| 0 <= i < column * 8 ==> #[trigger] magic_bitboards[i] == spec_magic_board(i, is_rook),
            forall|i: int| 0 <= i < column * 8 ==> 48 <= #[trigger] magic_bitboards[i].index < 64,
            forall|i: int| 0 <= i < column * 8 ==> #[trigger] magic_bitboards[i].index + fields_of(magic_bitboards[i].relevant_fields.board).len() == 64,
        decreases 8 - column,
    {
        let mut row: usize = 0;
        while row < 8
            invariant
                column < 8,
                row <= 8,
                forall|i: int| 0 <= i < column * 8 + row ==> #[trigger] magic_bitboards[i] == spec_magic_board(i, is_rook),
                forall|i: int| 0 <= i < column * 8 + row ==> 48 <= #[trigger] magic_bitboards[i].index < 64,
                forall|i: int| 0 <= i < column * 8 + row ==> #[trigger] magic_bitboards[i].index + fields_of(magic_bitboards[i].relevant_fields.board).len() == 64,
            decreases 8 - row,
        {
            let position: usize = column * 8 + row;
            let blockers = if is_rook {
                get_rook_blockers_for_field(column, row)
            } else {
                get_bishop_blockers_for_field(column, row)
            };
            let count = blockers.get_used_fields().len();
            proof {
                lemma_blocker_squares_len(column as int, row as int);
                lemma_blocker_squares_nonempty(column as int, row as int);
                if is_rook {
                    let t = choose|t: int| rook_blocker_squares(column as int, row as int).contains(t);
                    lemma_fields_nonempty(blockers.board, t);
                } else {
                    let t = choose|t: int| bishop_blocker_squares(column as int, row as int).contains(t);
                    lemma_fields_nonempty(blockers.board, t);
                }
                assert(position as int / 8 == column && position as int % 8 == row);
                if is_rook {
                    lemma_fields_len_bound(blockers.board, rook_blocker_squares(column as int, row as int));
                } else {
                    lemma_fields_len_bound(blockers.board, bishop_blocker_squares(column as int, row as int));
                }
                lemma_bitboard_of(blockers);
            }
            let shift: u8 = 64 - count as u8;
            let magic_key = if is_rook { ROOK_MAGIC_NUMBERS[position] } else { BISHOP_MAGIC_NUMBERS[position] };
            magic_bitboards[position] = MagicBitboard { relevant_fields: blockers, magic_key, index: shift };
            row = row + 1;
        }
        column = column + 1;
    }
    magic_bitboards
}

/// The magic board of every square for a bishop.
pub fn init_bishop_magic_arrays() -> (magic_bitboards: [MagicBitboard; 64])
    ensures
        forall|i: int| 0 <= i < 64 ==> #[trigger] magic_bitboards[i] == spec_magic_board(i, false),
        forall|i: int| 0 <= i < 64 ==> 48 <= #[trigger] magic_bitboards[i].index < 64,
        forall|i: int| 0 <= i < 64 ==> #[trigger] magic_bitboards[i].index + fields_of(magic_bitboards[i].relevant_fields.board).len() == 64,
{
    init_magic_arrays(false)
}

/// The magic board of every square for a rook.
pub fn init_rook_magic_arrays() -> (magic_bitboards: [MagicBitboard; 64])
    ensures
        forall|i: int| 0 <= i < 64 ==> #[trigger] magic_bitboards[i] == spec_magic_board(i, true),
        forall|i: int| 0 <= i < 64 ==> 48 <= #[trigger] magic_bitboards[i].index < 64,
        forall|i: int| 0 <= i < 64 ==> #[trigger] magic_bitboards[i].index + fields_of(magic_bitboards[i].relevant_fields.board).len() == 64,
{
    init_magic_arrays(true)
}

/// The next subset of `mask` after `b` in the carry-rippler order (which counts through the
/// subsets of `mask` as if its squares were the bits of a number).
pub open spec fn next_subset(b: u64, mask: u64) -> u64 {
    vstd::wrapping::u64_specs::wrapping_sub(b, mask) & mask
}

/// The `k`-th subset of `mask` in the carry-rippler order, from the empty one.
pub open spec fn subset_at(mask: u64, k: nat) -> u64
    decreases k,
{
    if k == 0 {
        0
    } else {
        next_subset(subset_at(mask, (k - 1) as nat), mask)
    }
}

/// How many subsets of `mask` are visited from the `k`-th on: until the order comes back to the
/// empty subset, and no more than `bound`.
pub open spec fn visited_subsets(mask: u64, k: nat, bound: nat) -> nat
    decreases bound - k,
{
    if k >= bound {
        bound
    } else if subset_at(mask, k) == 0 {
        k
    } else {
        visited_subsets(mask, k + 1, bound)
    }
}

/// Attacks of a rook (`is_rook`) or a bishop on `position` with the `occupied` squares.
pub open spec fn slider_attacks(position: int, occupied: u64, is_rook: bool) -> Set<int> {
    if is_rook {
        rook_attacks(position, occupied)
    } else {
        bishop_attacks(position, occupied)
    }
}

/// The number of entries of the table of a magic board: two to the power of 64 minus its index.
pub open spec fn table_size(magic_bitboard: MagicBitboard) -> nat {
    (1u64 << ((64 - magic_bitboard.index) as u64)) as nat
}

/// The attack table of a slider on `position` after the first `n` subsets of the relevant
/// squares are written, each at its magic index; untouched entries are empty.
pub open spec fn attack_table(position: int, magic_bitboard: MagicBitboard, is_rook: bool, n: nat) -> Seq<Set<int>>
    decreases n,
{
    if n == 0 {
        Seq::new(table_size(magic_bitboard), |j: int| Set::<int>::empty())
    } else {
        let b = subset_at(magic_bitboard.relevant_fields.board, (n - 1) as nat);
        attack_table(position, magic_bitboard, is_rook, (n - 1) as nat).update(
            spec_magic_index(b, magic_bitboard) as int,
            slider_attacks(position, b, is_rook),
        )
    }
}

/// The finished attack table of a magic board: every subset of the relevant squares visited,
/// as long as the table has room for them.
pub open spec fn spec_moves_table(position: int, magic_bitboard: MagicBitboard, is_rook: bool) -> Seq<Set<int>> {
    attack_table(
        position,
        magic_bitboard,
        is_rook,
        visited_subsets(magic_bitboard.relevant_fields.board, 1, table_size(magic_bitboard)),
    )
}

proof fn lemma_attack_table_len(position: int, magic_bitboard: MagicBitboard, is_rook: bool, n: nat)
    requires
        48 <= magic_bitboard.index < 64,
    ensures
        attack_table(position, magic_bitboard, is_rook, n).len() == table_size(magic_bitboard),
    decreases n,
{
    if n > 0 {
        lemma_attack_table_len(position, magic_bitboard, is_rook, (n - 1) as nat);
        let b = subset_at(magic_bitboard.relevant_fields.board, (n - 1) as nat);
        lemma_table_index(
            vstd::wrapping::u64_specs::wrapping_mul(b & magic_bitboard.relevant_fields.board, magic_bitboard.magic_key),
            magic_bitboard.index as u64,
            (64 - magic_bitboard.index) as u64,
        );
    }
}

/// The number of visited subsets is the first return to the empty subset, or the bound.
pub proof fn lemma_visited(mask: u64, k: nat, n: nat, bound: nat)
    requires
        1 <= k <= n <= bound,
        forall|j: nat| k <= j < n ==> subset_at(mask, j) != 0,
        n == bound || subset_at(mask, n) == 0,
    ensures
        visited_subsets(mask, k, bound) == n,
    decreases n - k,
{
    if k < n {
        lemma_visited(mask, k + 1, n, bound);
    }
}

proof fn lemma_table_index(h: u64, shift: u64, bits: u64)
    requires
        48 <= shift < 64,
        bits == 64 - shift,
    ensures
        (h >> shift) < (1u64 << bits),
        (1u64 << bits) <= 65536,
        (1u64 << bits) >= 1,
{
    assert((h >> shift) < (1u64 << bits)) by (bit_vector)
        requires
            48 <= shift < 64,
            bits == 64 - shift,
    ;
    assert((1u64 << bits) <= 65536 && (1u64 << bits) >= 1) by (bit_vector)
        requires
            48 <= shift < 64,
            bits == 64 - shift,
    ;
}

/// Fills the table of attacks of a slider on `own_position` for every subset of the relevant
/// squares, at the magic index of that subset.
fn create_moves_vec(
    magic_bitboard: &MagicBitboard,
    own_position: usize,
    moves_by_field: &HashMap<usize, MoveInEveryDirection>,
    is_rook: bool,
) -> (table: Vec<Bitboard>)
    requires
        48 <= magic_bitboard.index < 64,
        own_position < 64,
        moves_by_field@.contains_key(own_position),
        moves_by_field@[own_position].is_rays_of(own_position as int),
    ensures
        table@.len() == table_size(*magic_bitboard),
        forall|j: int| 0 <= j < table@.len() ==> (#[trigger] table@[j])@ == spec_moves_table(own_position as int, *magic_bitboard, is_rook)[j],
{
    let ghost mask = magic_bitboard.relevant_fields.board;
    let ghost m = moves_by_field@[own_position];
    proof {
        lemma_table_index(0, magic_bitboard.index as u64, (64 - magic_bitboard.index) as u64);
        crate::helper::moves_by_field::lemma_rays_in_board(m, own_position as int);
    }
    let index_bits: u8 = 64 - magic_bitboard.index;
    let size: u64 = 1u64 << index_bits;
    let ghost n = table_size(*magic_bitboard);
    assert(size == n);
    let empty = Bitboard::new();
    let mut table: Vec<Bitboard> = vec![empty; size as usize];
    assert forall|j: int| 0 <= j < table@.len() implies (#[trigger] table@[j])@ == attack_table(own_position as int, *magic_bitboard, is_rook, 0)[j] by {
        crate::board::bitboard::lemma_bits_zero(table@[j].board);
    }
    let mut blockers = Bitboard::new();
    let mut count: usize = 0;
    let mut done = false;
    while !done
        invariant
            48 <= magic_bitboard.index < 64,
            mask == magic_bitboard.relevant_fields.board,
            n == table_size(*magic_bitboard),
            size == n,
            1 <= size <= 65536,
            table@.len() == n,
            count <= n,
            blockers.board == subset_at(mask, count as nat),
            moves_by_field@.contains_key(own_position),
            m == moves_by_field@[own_position],
            m.is_rays_of(own_position as int),
            own_position < 64,
            crate::helper::moves_by_field::rook_rays_in_board(m),
            crate::helper::moves_by_field::bishop_rays_in_board(m),
            forall|j: int| 0 <= j < n ==> (#[trigger] table@[j])@ == attack_table(own_position as int, *magic_bitboard, is_rook, count as nat)[j],
            forall|j: nat| 1 <= j <= count && !(done && j == count) ==> subset_at(mask, j) != 0,
            done ==> count >= 1 && (count == n || subset_at(mask, count as nat) == 0),
        decreases n - count, if done { 0int } else { 1int },
    {
        if count as u64 == size {
            done = true;
        } else {
            let moves = get_valid_moves_for_position_with_given_blockers(blockers, own_position, moves_by_field, is_rook);
            let ghost b = blockers.board;
            assert(slider_attacks_on(m, b, is_rook) == slider_attacks(own_position as int, b, is_rook));
            let idx = get_magic_index(blockers, magic_bitboard);
            proof {
                lemma_table_index(
                    vstd::wrapping::u64_specs::wrapping_mul(b & mask, magic_bitboard.magic_key),
                    magic_bitboard.index as u64,
                    (64 - magic_bitboard.index) as u64,
                );
            }
            let ghost before = attack_table(own_position as int, *magic_bitboard, is_rook, count as nat);
            proof {
                lemma_attack_table_len(own_position as int, *magic_bitboard, is_rook, count as nat);
                assert(idx as int == spec_magic_index(b, *magic_bitboard) as int);
                assert(attack_table(own_position as int, *magic_bitboard, is_rook, (count + 1) as nat)
                    == before.update(idx as int, slider_attacks(own_position as int, b, is_rook)));
            }
            table.set(idx, moves);
            count = count + 1;
            blockers.board = blockers.board.wrapping_sub(magic_bitboard.relevant_fields.board) & magic_bitboard.relevant_fields.board;
            if blockers.board == 0 {
                done = true;
            }
        }
    }
    proof {
        lemma_visited(mask, 1, count as nat, n);
    }
    table
}

/// The attack tables of a rook (`is_rook`) or a bishop on every square, as looked up through
/// the square's magic board.
pub open spec fn tables_match(tables: Seq<Vec<Bitboard>>, is_rook: bool) -> bool {
    &&& tables.len() == 64
    &&& forall|i: int| 0 <= i < 64 ==> (#[trigger] tables[i])@.len() == table_size(spec_magic_board(i, is_rook))
    &&& forall|i: int, j: int| 0 <= i < 64 && 0 <= j < tables[i]@.len() ==> (#[trigger] tables[i]@[j])@
        == spec_moves_table(i, spec_magic_board(i, is_rook), is_rook)[j]
}

fn init_magic_moves_array(is_rook: bool) -> (magic_positions: Vec<Vec<Bitboard>>)
    ensures
        tables_match(magic_positions@, is_rook),
{
    let magic_bitboards = init_magic_arrays(is_rook);
    let moves_by_field = get_moves_for_each_field();
    let mut magic_positions: Vec<Vec<Bitboard>> = Vec::new();
    let mut position: usize = 0;
    while position < 64
        invariant
            position <= 64,
            magic_positions@.len() == position,
            forall|i: int| 0 <= i < 64 ==> #[trigger] magic_bitboards[i] == spec_magic_board(i, is_rook),
            forall|i: int| 0 <= i < 64 ==> 48 <= #[trigger] magic_bitboards[i].index < 64,
            forall|i: usize| moves_by_field@.contains_key(i) <==> i < 64,
            forall|i: usize| i < 64 ==> (#[trigger] moves_by_field@[i]).is_rays_of(i as int),
            forall|i: int| 0 <= i < position ==> (#[trigger] magic_positions@[i])@.len() == table_size(spec_magic_board(i, is_rook)),
            forall|i: int, j: int| 0 <= i < position && 0 <= j < magic_positions@[i]@.len() ==> (#[trigger] magic_positions@[i]@[j])@
                == spec_moves_table(i, spec_magic_board(i, is_rook), is_rook)[j],
        decreases 64 - position,
    {
        let magic_bitboard = magic_bitboards[position];
        let table = create_moves_vec(&magic_bitboard, position, &moves_by_field, is_rook);
        magic_positions.push(table);
        position = position + 1;
    }
    magic_positions
}

/// The bishop attack table of every square.
pub fn init_bishop_magic_moves_array() -> (magic_positions: Vec<Vec<Bitboard>>)
    ensures
        tables_match(magic_positions@, false),
{
    init_magic_moves_array(false)
}

/// The rook attack table of every square.
pub fn init_rook_magic_moves_array() -> (magic_positions: Vec<Vec<Bitboard>>)
    ensures
        tables_match(magic_positions@, true),
{
    init_magic_moves_array(true)
}

/// The magic index of any blockers falls inside the table of its magic board, and only the
/// blockers on the relevant squares decide it.
pub proof fn law_magic_index_in_table(blockers: u64, magic_bitboard: MagicBitboard)
    requires
        1 <= magic_bitboard.index < 64,
    ensures
        spec_magic_index(blockers, magic_bitboard) < table_size(magic_bitboard),
        spec_magic_index(blockers, magic_bitboard)
            == spec_magic_index(blockers & magic_bitboard.relevant_fields.board, magic_bitboard),
{
    let h = vstd::wrapping::u64_specs::wrapping_mul(blockers & magic_bitboard.relevant_fields.board, magic_bitboard.magic_key);
    let shift = magic_bitboard.index as u64;
    let bits = (64 - magic_bitboard.index) as u64;
    assert((h >> shift) < (1u64 << bits)) by (bit_vector)
        requires
            1 <= shift < 64,
            bits == 64 - shift,
    ;
    let mask = magic_bitboard.relevant_fields.board;
    assert((blockers & mask) & mask == blockers & mask) by (bit_vector);
}

/// The mask without its lowest set square.
pub open spec fn without_lowest(m: u64) -> u64 {
    m & vstd::wrapping::u64_specs::wrapping_sub(m, 1)
}

/// The lowest set square of the mask as a board of its own (the empty board for the empty mask).
pub open spec fn lowest_bit(m: u64) -> u64 {
    m & !without_lowest(m)
}

/// `s` holds only squares of `m`.
pub open spec fn within(s: u64, m: u64) -> bool {
    s & !m == 0
}

/// One step of the walk from a subset without the lowest square adds that square; from one with
/// it, the step is the step of the walk over the other squares.
proof fn lemma_ripple_steps(m: u64, s: u64)
    requires
        m != 0,
        within(s, without_lowest(m)),
    ensures
        next_subset(s, m) == s | lowest_bit(m),
        next_subset(s | lowest_bit(m), m) == next_subset(s, without_lowest(m)),
        lowest_bit(m) != 0,
        s & lowest_bit(m) == 0,
        within(lowest_bit(m), m),
{
    assert(next_subset(s, m) == s | lowest_bit(m)) by (bit_vector)
        requires
            m != 0,
            s & !without_lowest(m) == 0,
    ;
    assert(next_subset(s | lowest_bit(m), m) == next_subset(s, without_lowest(m))) by (bit_vector)
        requires
            m != 0,
            s & !without_lowest(m) == 0,
    ;
    assert(lowest_bit(m) != 0 && s & lowest_bit(m) == 0 && lowest_bit(m) & !m == 0) by (bit_vector)
        requires
            m != 0,
            s & !without_lowest(m) == 0,
    ;
}

/// Every subset on the walk lies within the mask.
proof fn lemma_subset_within(m: u64, k: nat)
    ensures
        within(subset_at(m, k), m),
{
    if k == 0 {
        assert(0u64 & !m == 0) by (bit_vector);
    } else {
        let x = subset_at(m, (k - 1) as nat);
        assert(next_subset(x, m) & !m == 0) by (bit_vector);
    }
}

/// The walk over `m` alternates between the walk over `m` without its lowest square and the same
/// subsets with that square added.
proof fn lemma_ripple_interleave(m: u64, j: nat)
    requires
        m != 0,
    ensures
        subset_at(m, 2 * j) == subset_at(without_lowest(m), j),
        subset_at(m, 2 * j + 1) == subset_at(without_lowest(m), j) | lowest_bit(m),
    decreases j,
{
    let wl = without_lowest(m);
    if j == 0 {
        assert(0u64 & !wl == 0) by (bit_vector);
        lemma_ripple_steps(m, 0);
        assert(subset_at(m, 1) == next_subset(subset_at(m, 0), m));
    } else {
        lemma_ripple_interleave(m, (j - 1) as nat);
        let x = subset_at(wl, (j - 1) as nat);
        lemma_subset_within(wl, (j - 1) as nat);
        lemma_ripple_steps(m, x);
        assert(subset_at(m, 2 * j) == next_subset(subset_at(m, (2 * j - 1) as nat), m));
        assert(subset_at(wl, j) == next_subset(x, wl));
        let y = subset_at(wl, j);
        lemma_subset_within(wl, j);
        lemma_ripple_steps(m, y);
        assert(subset_at(m, 2 * j + 1) == next_subset(subset_at(m, 2 * j), m));
    }
}

/// Removing the lowest square of a non-empty mask leaves one square fewer.
proof fn lemma_without_lowest_count(m: u64)
    requires
        m != 0,
    ensures
        fields_of(without_lowest(m)).len() + 1 == fields_of(m).len(),
{
    let wl = without_lowest(m);
    let lb = lowest_bit(m);
    assert(lb != 0) by (bit_vector)
        requires
            m != 0,
            lb == lowest_bit(m),
    ;
    lemma_bits_zero(lb);
    assert(exists|t: int| bits(lb).contains(t)) by {
        if !(exists|t: int| bits(lb).contains(t)) {
            assert(bits(lb) =~= Set::<int>::empty());
        }
    }
    let t = choose|t: int| bits(lb).contains(t);
    assert forall|i: int| 0 <= i < 64 implies bit(m, i) == (bit(wl, i) || i == t) && !(bit(wl, i) && i == t) by {
        let iu = i as u64;
        let tu = t as u64;
        assert(((m >> iu) & 1u64 == 1u64) == (((wl >> iu) & 1u64 == 1u64) || ((lb >> iu) & 1u64 == 1u64))
            && !(((wl >> iu) & 1u64 == 1u64) && ((lb >> iu) & 1u64 == 1u64))) by (bit_vector)
            requires
                iu < 64,
                wl == without_lowest(m),
                lb == lowest_bit(m),
        ;
        assert((((lb >> iu) & 1u64 == 1u64) && ((lb >> tu) & 1u64 == 1u64)) ==> iu == tu) by (bit_vector)
            requires
                iu < 64,
                tu < 64,
                lb == lowest_bit(m),
        ;
        assert(bit(lb, t));
    }
    assert(bits(m) =~= bits(wl).insert(t));
    assert(!bits(wl).contains(t));
    lemma_fields_len(m);
    lemma_fields_len(wl);
}

/// The walk over the subsets of a mask with `c` squares comes back to the empty subset after
/// exactly two to the power of `c` steps; on the way it meets every subset of the mask, each
/// once.
pub proof fn law_carry_ripple_walk(m: u64)
    ensures
        subset_at(m, pow2(fields_of(m).len())) == 0,
        forall|k: nat| 1 <= k < pow2(fields_of(m).len()) ==> #[trigger] subset_at(m, k) != 0,
        forall|i: nat, j: nat| i < j < pow2(fields_of(m).len()) ==> #[trigger] subset_at(m, i) != #[trigger] subset_at(m, j),
        forall|s: u64| #[trigger] within(s, m) ==> exists|k: nat| k < pow2(fields_of(m).len()) && #[trigger] subset_at(m, k) == s,
    decreases fields_of(m).len(),
{
    let c = fields_of(m).len();
    if m == 0 {
        lemma_fields_len(m);
        lemma_bits_zero(m);
        assert(bits(m).len() == 0);
        lemma2_to64();
        assert(next_subset(0, 0) == 0) by (bit_vector);
        assert(subset_at(m, 1) == next_subset(subset_at(m, 0), m));
        assert forall|s: u64| #[trigger] within(s, m) implies exists|k: nat| k < pow2(c) && #[trigger] subset_at(m, k) == s by {
            assert(s & !0u64 == 0 ==> s == 0) by (bit_vector);
            assert(subset_at(m, 0) == s);
        }
    } else {
        let wl = without_lowest(m);
        let lb = lowest_bit(m);
        lemma_without_lowest_count(m);
        law_carry_ripple_walk(wl);
        let p = pow2(c);
        let q = pow2((c - 1) as nat);
        lemma_pow2_unfold(c);
        assert(p == 2 * q);
        lemma_ripple_interleave(m, q);
        assert forall|k: nat| 1 <= k < p implies #[trigger] subset_at(m, k) != 0 by {
            let j = k / 2;
            lemma_ripple_interleave(m, j);
            lemma_subset_within(wl, j);
            lemma_ripple_steps(m, subset_at(wl, j));
            if k % 2 == 0 {
                assert(k == 2 * j);
                assert(subset_at(wl, j) != 0);
            } else {
                assert(k == 2 * j + 1);
                let x = subset_at(wl, j);
                assert(lb != 0 ==> x | lb != 0) by (bit_vector);
            }
        }
        assert forall|i: nat, j: nat| i < j < p implies #[trigger] subset_at(m, i) != #[trigger] subset_at(m, j) by {
            let a = i / 2;
            let b = j / 2;
            lemma_ripple_interleave(m, a);
            lemma_ripple_interleave(m, b);
            let x = subset_at(wl, a);
            let y = subset_at(wl, b);
            lemma_subset_within(wl, a);
            lemma_subset_within(wl, b);
            lemma_ripple_steps(m, x);
            lemma_ripple_steps(m, y);
            assert(x & lb == 0 && y & lb == 0 && lb != 0 ==> x != (y | lb) && (x | lb) != y) by (bit_vector);
            assert(x & lb == 0 && y & lb == 0 && x != y ==> (x | lb) != (y | lb)) by (bit_vector);
            if i % 2 == j % 2 {
                assert(a < b);
                assert(x != y);
            }
        }
        assert forall|s: u64| #[trigger] within(s, m) implies exists|k: nat| k < p && #[trigger] subset_at(m, k) == s by {
            if s & lb == 0 {
                assert(s & !m == 0 && s & lb == 0 ==> s & !wl == 0) by (bit_vector)
                    requires
                        wl == without_lowest(m),
                        lb == lowest_bit(m),
                ;
                assert(within(s, wl));
                let k = choose|k: nat| k < q && #[trigger] subset_at(wl, k) == s;
                lemma_ripple_interleave(m, k);
                assert(subset_at(m, 2 * k) == s);
            } else {
                let s2 = s & wl;
                assert(s & !m == 0 && s & lb != 0 ==> s == (s2 | lb) && s2 & !wl == 0) by (bit_vector)
                    requires
                        wl == without_lowest(m),
                        lb == lowest_bit(m),
                        s2 == s & wl,
                ;
                assert(within(s2, wl));
                let k = choose|k: nat| k < q && #[trigger] subset_at(wl, k) == s2;
                lemma_ripple_interleave(m, k);
                assert(subset_at(m, 2 * k + 1) == s);
            }
        }
    }
}

/// For a magic board whose index leaves one bit of the table per relevant square, the walk over
/// the subsets of the relevant squares visits every one of them, each once, and is back at the
/// empty subset exactly when the table is full: its size never cuts the walk short.
pub proof fn law_walk_fills_the_table(magic_bitboard: MagicBitboard)
    requires
        48 <= magic_bitboard.index < 64,
        magic_bitboard.index + fields_of(magic_bitboard.relevant_fields.board).len() == 64,
    ensures
        visited_subsets(magic_bitboard.relevant_fields.board, 1, table_size(magic_bitboard)) == table_size(magic_bitboard),
        subset_at(magic_bitboard.relevant_fields.board, table_size(magic_bitboard)) == 0,
        forall|i: nat, j: nat| i < j < table_size(magic_bitboard) ==> #[trigger] subset_at(magic_bitboard.relevant_fields.board, i)
            != #[trigger] subset_at(magic_bitboard.relevant_fields.board, j),
        forall|s: u64| #[trigger] within(s, magic_bitboard.relevant_fields.board) ==> exists|k: nat|
            k < table_size(magic_bitboard) && #[trigger] subset_at(magic_bitboard.relevant_fields.board, k) == s,
{
    let mask = magic_bitboard.relevant_fields.board;
    let c = fields_of(mask).len();
    let shift = (64 - magic_bitboard.index) as u64;
    assert(c == shift);
    vstd::bits::lemma_u64_pow2_no_overflow(c);
    vstd::bits::lemma_u64_shl_is_mul(1, shift);
    assert(table_size(magic_bitboard) == pow2(c));
    law_carry_ripple_walk(mask);
    lemma_visited(mask, 1, pow2(c), pow2(c));
}

/// The magic board of a square holds exactly the square's relevant squares, and its index
/// leaves one bit of the table per relevant square, at most sixteen and at least one.
pub proof fn lemma_magic_board_props(position: int, is_rook: bool)
    requires
        0 <= position < 64,
    ensures
        bits(spec_magic_board(position, is_rook).relevant_fields.board) == relevant_squares(position, is_rook),
        48 <= spec_magic_board(position, is_rook).index < 64,
        spec_magic_board(position, is_rook).index + fields_of(spec_magic_board(position, is_rook).relevant_fields.board).len()
            == 64,
{
    let column = position / 8;
    let row = position % 8;
    let s = position;
    let relevant = relevant_squares(position, is_rook);
    lemma_blocker_squares_len(column, row);
    lemma_blocker_squares_nonempty(column, row);
    assert forall|t: int| relevant.contains(t) implies 0 <= t < 64 by {
        if is_rook {
            if step_squares(s, -1, 1, row).contains(t) {
                let k = choose|k: int| 1 <= k < row && t == #[trigger] step_square(s, -1, k);
            } else if step_squares(s, 1, 1, if row <= 6 { 7 - row } else { 0 }).contains(t) {
                let k = choose|k: int| 1 <= k < (if row <= 6 { 7 - row } else { 0 }) && t == #[trigger] step_square(s, 1, k);
            } else if step_squares(s, 8, 1, if column <= 6 { 7 - column } else { 0 }).contains(t) {
                let k = choose|k: int| 1 <= k < (if column <= 6 { 7 - column } else { 0 }) && t == #[trigger] step_square(s, 8, k);
            } else {
                let k = choose|k: int| 1 <= k < column && t == #[trigger] step_square(s, -8, k);
            }
        } else {
            let forward = range_len(1, 8 - column);
            if step_squares(s, 7, 1, min_int(row, forward)).contains(t) {
                let k = choose|k: int| 1 <= k < min_int(row, forward) && t == #[trigger] step_square(s, 7, k);
            } else if step_squares(s, -9, 1, min_int(row, column)).contains(t) {
                let k = choose|k: int| 1 <= k < min_int(row, column) && t == #[trigger] step_square(s, -9, k);
            } else if step_squares(s, 9, 1, min_int(7 - row, forward)).contains(t) {
                let k = choose|k: int| 1 <= k < min_int(7 - row, forward) && t == #[trigger] step_square(s, 9, k);
            } else {
                let k = choose|k: int| 1 <= k < min_int(7 - row, column) && t == #[trigger] step_square(s, -7, k);
            }
        }
    }
    lemma_board_of_squares(relevant);
    let mask = bitboard_of(relevant).board;
    assert(bits(mask) == relevant);
    lemma_fields_len(mask);
    let t = if is_rook {
        choose|t: int| rook_blocker_squares(column, row).contains(t)
    } else {
        choose|t: int| bishop_blocker_squares(column, row).contains(t)
    };
    lemma_fields_nonempty(mask, t);
}

} // verus!

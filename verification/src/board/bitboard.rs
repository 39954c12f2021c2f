use vstd::prelude::*;

verus! {

/// Whether square `i` is set in the 64-bit board `b`.
pub open spec fn bit(b: u64, i: int) -> bool {
    (b >> (i as u64)) & 1u64 == 1u64
}

/// The squares (0 = a1 .. 63 = h8) set in `b`.
pub open spec fn bits(b: u64) -> Set<int> {
    Set::new(|i: int| 0 <= i < 64 && bit(b, i))
}

/// Setting bit `p` makes bit `p` set and leaves the other bits.
pub proof fn lemma_bit_set(b: u64, p: u64, i: u64)
    requires
        p < 64,
        i < 64,
    ensures
        ((b | (1u64 << p)) >> i) & 1u64 == 1u64 <==> (i == p || (b >> i) & 1u64 == 1u64),
{
    assert(((b | (1u64 << p)) >> i) & 1u64 == 1u64 <==> (i == p || (b >> i) & 1u64 == 1u64))
        by (bit_vector)
        requires
            p < 64,
            i < 64,
    ;
}

/// Clearing bit `p` makes bit `p` clear and leaves the other bits.
pub proof fn lemma_bit_clear(b: u64, p: u64, i: u64)
    requires
        p < 64,
        i < 64,
    ensures
        ((b & !(1u64 << p)) >> i) & 1u64 == 1u64 <==> (i != p && (b >> i) & 1u64 == 1u64),
{
    assert(((b & !(1u64 << p)) >> i) & 1u64 == 1u64 <==> (i != p && (b >> i) & 1u64 == 1u64))
        by (bit_vector)
        requires
            p < 64,
            i < 64,
    ;
}

/// The members of `s` below `n` that are squares, in ascending order.
pub open spec fn set_fields_below(s: Set<int>, n: int) -> Seq<usize>
    decreases n,
{
    if n <= 0 {
        Seq::empty()
    } else if s.contains(n - 1) {
        set_fields_below(s, n - 1).push((n - 1) as usize)
    } else {
        set_fields_below(s, n - 1)
    }
}

/// The listed squares of a set below `n` are members of the set.
pub proof fn lemma_set_fields_members(s: Set<int>, n: int)
    requires
        n <= 64,
    ensures
        forall|k: int| 0 <= k < set_fields_below(s, n).len() ==> s.contains(#[trigger] set_fields_below(s, n)[k] as int),
    decreases n,
{
    if n > 0 {
        lemma_set_fields_members(s, n - 1);
        if s.contains(n - 1) {
            let prev = set_fields_below(s, n - 1);
            assert(set_fields_below(s, n) == prev.push((n - 1) as usize));
            assert forall|k: int| 0 <= k < set_fields_below(s, n).len() implies s.contains(#[trigger] set_fields_below(s, n)[k] as int) by {
                if k < prev.len() {
                    assert(set_fields_below(s, n)[k] == prev[k]);
                }
            }
        } else {
            assert(set_fields_below(s, n) == set_fields_below(s, n - 1));
        }
    }
}

/// The squares of `s`, in ascending order.
pub open spec fn set_fields(s: Set<int>) -> Seq<usize> {
    set_fields_below(s, 64)
}

/// The set squares of `b` below `n`, in ascending order.
pub open spec fn fields_below(b: u64, n: int) -> Seq<usize> {
    set_fields_below(bits(b), n)
}

/// All set squares of `b`, in ascending order.
pub open spec fn fields_of(b: u64) -> Seq<usize> {
    set_fields(bits(b))
}

/// The squares of `a & b` are those of both.
pub proof fn lemma_bits_and(a: u64, b: u64)
    ensures
        bits(a & b) == bits(a).intersect(bits(b)),
{
    assert forall|i: int| 0 <= i < 64 implies bit(a & b, i) == (bit(a, i) && bit(b, i)) by {
        let j = i as u64;
        assert((((a & b) >> j) & 1u64 == 1u64) == (((a >> j) & 1u64 == 1u64) && ((b >> j) & 1u64
            == 1u64))) by (bit_vector)
            requires
                j < 64,
        ;
    }
    assert(bits(a & b) =~= bits(a).intersect(bits(b)));
}

/// The squares of `a | b` are those of either.
pub proof fn lemma_bits_or(a: u64, b: u64)
    ensures
        bits(a | b) == bits(a).union(bits(b)),
{
    assert forall|i: int| 0 <= i < 64 implies bit(a | b, i) == (bit(a, i) || bit(b, i)) by {
        let j = i as u64;
        assert((((a | b) >> j) & 1u64 == 1u64) == (((a >> j) & 1u64 == 1u64) || ((b >> j) & 1u64
            == 1u64))) by (bit_vector)
            requires
                j < 64,
        ;
    }
    assert(bits(a | b) =~= bits(a).union(bits(b)));
}

/// The squares of `a & !b` are those of `a` without those of `b`.
pub proof fn lemma_bits_and_not(a: u64, b: u64)
    ensures
        bits(a & !b) == bits(a).difference(bits(b)),
{
    assert forall|i: int| 0 <= i < 64 implies bit(a & !b, i) == (bit(a, i) && !bit(b, i)) by {
        let j = i as u64;
        assert((((a & !b) >> j) & 1u64 == 1u64) == (((a >> j) & 1u64 == 1u64) && !((b >> j) & 1u64
            == 1u64))) by (bit_vector)
            requires
                j < 64,
        ;
    }
    assert(bits(a & !b) =~= bits(a).difference(bits(b)));
}

/// A board is zero exactly when it has no squares.
pub proof fn lemma_bits_zero(a: u64)
    ensures
        (a == 0) <==> bits(a) == Set::<int>::empty(),
{
    if a != 0 {
        assert(exists|j: u64| j < 64 && (a >> j) & 1u64 == 1u64) by {
            let t = a.trailing_zeros();
            broadcast use vstd::std_specs::bits::axiom_u64_trailing_zeros;
            assert((a >> (t as u64)) & 1u64 == 1u64);
        }
        let j = choose|j: u64| j < 64 && (a >> j) & 1u64 == 1u64;
        assert(bits(a).contains(j as int));
    } else {
        assert forall|i: int| 0 <= i < 64 implies !bit(a, i) by {
            let j = i as u64;
            assert((0u64 >> j) & 1u64 == 0u64) by (bit_vector);
        }
        assert(bits(a) =~= Set::<int>::empty());
    }
}

/// Two boards with the same squares are the same number.
pub proof fn lemma_bits_eq(a: u64, b: u64)
    requires
        bits(a) == bits(b),
    ensures
        a == b,
{
    lemma_bits_zero(a ^ b);
    assert forall|i: int| 0 <= i < 64 implies !bit(a ^ b, i) by {
        let j = i as u64;
        assert(bits(a).contains(i) == bit(a, i));
        assert(bits(b).contains(i) == bit(b, i));
        assert(bits(a).contains(i) == bits(b).contains(i));
        assert(bit(a, i) == bit(b, i));
        assert(((a >> j) & 1u64 == 1u64) == ((b >> j) & 1u64 == 1u64));
        assert((((a ^ b) >> j) & 1u64 == 1u64) == (((a >> j) & 1u64 == 1u64) != ((b >> j) & 1u64
            == 1u64))) by (bit_vector)
            requires
                j < 64,
        ;
    }
    assert(bits(a ^ b) =~= Set::<int>::empty());
    assert(a ^ b == 0u64 ==> a == b) by (bit_vector);
}

/// Every finite set of squares on the board is the set of squares of some board.
pub proof fn lemma_board_of_squares(s: Set<int>)
    requires
        s.finite(),
        forall|t: int| s.contains(t) ==> 0 <= t < 64,
    ensures
        exists|b: u64| bits(b) == s,
    decreases s.len(),
{
    if s.len() == 0 {
        s.lemma_len0_is_empty();
        lemma_bits_zero(0);
        assert(bits(0u64) == s);
    } else {
        let t = s.choose();
        assert(s.contains(t));
        lemma_board_of_squares(s.remove(t));
        let b0 = choose|b: u64| bits(b) == s.remove(t);
        let b = b0 | (1u64 << (t as u64));
        assert forall|i: int| #[trigger] bits(b).contains(i) == s.contains(i) by {
            if 0 <= i < 64 {
                lemma_bit_set(b0, t as u64, i as u64);
                assert(bits(b0).contains(i) == bit(b0, i));
            }
        }
        assert(bits(b) =~= s);
    }
}

/// The board whose squares are `s` (for a set of squares that some board has).
pub open spec fn bitboard_of(s: Set<int>) -> Bitboard {
    Bitboard { board: choose|b: u64| bits(b) == s }
}

/// A board is the board of its squares.
pub proof fn lemma_bitboard_of(b: Bitboard)
    ensures
        bitboard_of(b@) == b,
{
    let c = bitboard_of(b@).board;
    assert(bits(b.board) == b@);
    lemma_bits_eq(c, b.board);
}

/// Bit `j` of `b >> i` is bit `i + j` of `b`.
pub proof fn lemma_shift_bits(b: u64, i: u64, j: u64)
    requires
        i < 64,
        j < 64,
    ensures
        i + j < 64 ==> ((b >> i) >> j) & 1u64 == (b >> ((i + j) as u64)) & 1u64,
        i + j >= 64 ==> ((b >> i) >> j) == 0u64,
{
    assert(i + j < 64 ==> ((b >> i) >> j) & 1u64 == (b >> ((i + j) as u64)) & 1u64) by (bit_vector)
        requires
            i < 64,
            j < 64,
    ;
    assert(i + j >= 64 ==> ((b >> i) >> j) == 0u64) by (bit_vector)
        requires
            i < 64,
            j < 64,
    ;
}

/// Squares `lo..hi` that are all clear add nothing to the ascending list.
pub proof fn lemma_fields_below_skip(b: u64, lo: int, hi: int)
    requires
        0 <= lo <= hi <= 64,
        forall|j: int| lo <= j < hi ==> !bit(b, j),
    ensures
        fields_below(b, hi) == fields_below(b, lo),
    decreases hi - lo,
{
    if hi > lo {
        lemma_fields_below_skip(b, lo, hi - 1);
    }
}

/// The list of set squares below `n` is ascending, holds only set squares below `n`, and all of them.
pub proof fn lemma_fields_below_props(b: u64, n: int)
    requires
        0 <= n <= 64,
    ensures
        forall|k: int| 0 <= k < fields_below(b, n).len() ==> {
            &&& (fields_below(b, n)[k] as int) < n
            &&& bit(b, fields_below(b, n)[k] as int)
        },
        forall|k1: int, k2: int| 0 <= k1 < k2 < fields_below(b, n).len() ==>
            fields_below(b, n)[k1] < fields_below(b, n)[k2],
        forall|j: int| 0 <= j < n && bit(b, j) ==> fields_below(b, n).contains(j as usize),
        fields_below(b, n).len() <= n,
    decreases n,
{
    if n > 0 {
        lemma_fields_below_props(b, n - 1);
        if bit(b, n - 1) {
            let s = fields_below(b, n - 1);
            assert(fields_below(b, n) == s.push((n - 1) as usize));
            assert forall|j: int| 0 <= j < n && bit(b, j) implies fields_below(b, n).contains(j as usize) by {
                if j < n - 1 {
                    let k = choose|k: int| 0 <= k < s.len() && s[k] == j as usize;
                    assert(fields_below(b, n)[k] == j as usize);
                } else {
                    assert(fields_below(b, n)[s.len() as int] == j as usize);
                }
            }
        }
    }
}

/// A board has no more used squares than any finite set holding them.
pub proof fn lemma_fields_len_bound(b: u64, t: Set<int>)
    requires
        bits(b).subset_of(t),
        t.finite(),
    ensures
        fields_of(b).len() <= t.len(),
{
    lemma_fields_below_props(b, 64);
    let f = fields_below(b, 64);
    let ints = f.map_values(|x: usize| x as int);
    assert(ints.no_duplicates()) by {
        assert forall|i: int, j: int| 0 <= i < ints.len() && 0 <= j < ints.len() && i != j implies ints[i] != ints[j] by {
            if i < j {
                assert(f[i] < f[j]);
            } else {
                assert(f[j] < f[i]);
            }
        }
    }
    ints.unique_seq_to_set();
    assert(ints.to_set().subset_of(t)) by {
        assert forall|x: int| ints.to_set().contains(x) implies t.contains(x) by {
            let k = choose|k: int| 0 <= k < ints.len() && ints[k] == x;
            assert(bit(b, f[k] as int));
            assert(bits(b).contains(x));
        }
    }
    vstd::set_lib::lemma_len_subset(ints.to_set(), t);
}

/// The list of used squares is as long as the set of used squares, which is finite.
pub proof fn lemma_fields_len(b: u64)
    ensures
        bits(b).finite(),
        fields_of(b).len() == bits(b).len(),
{
    lemma_fields_below_props(b, 64);
    let f = fields_below(b, 64);
    let ints = f.map_values(|x: usize| x as int);
    assert(ints.no_duplicates()) by {
        assert forall|i: int, j: int| 0 <= i < ints.len() && 0 <= j < ints.len() && i != j implies ints[i] != ints[j] by {
            if i < j {
                assert(f[i] < f[j]);
            } else {
                assert(f[j] < f[i]);
            }
        }
    }
    ints.unique_seq_to_set();
    assert(ints.to_set() =~= bits(b)) by {
        assert forall|x: int| ints.to_set().contains(x) implies bits(b).contains(x) by {
            let k = choose|k: int| 0 <= k < ints.len() && ints[k] == x;
            assert(bit(b, f[k] as int));
        }
        assert forall|x: int| bits(b).contains(x) implies ints.to_set().contains(x) by {
            assert(f.contains(x as usize));
            let k = choose|k: int| 0 <= k < f.len() && f[k] == x as usize;
            assert(ints[k] == x);
        }
    }
}

/// A board with a used square lists at least one square.
pub proof fn lemma_fields_nonempty(b: u64, t: int)
    requires
        bits(b).contains(t),
    ensures
        fields_of(b).len() >= 1,
{
    lemma_fields_below_props(b, 64);
    assert(fields_below(b, 64).contains(t as usize));
}

/// The lowest set square of `b` from `i` on, or 64 if there is none.
pub open spec fn lowest_from(b: u64, i: int) -> int
    decreases 64 - i,
{
    if i >= 64 {
        64
    } else if i >= 0 && bit(b, i) {
        i
    } else {
        lowest_from(b, i + 1)
    }
}

/// The lowest set square of `b`, or 64 for 0.
pub open spec fn first_field(b: u64) -> int {
    lowest_from(b, 0)
}

/// The lowest member of `s` from `i` on among the squares, or 64 if there is none.
pub open spec fn lowest_in(s: Set<int>, i: int) -> int
    decreases 64 - i,
{
    if i >= 64 {
        64
    } else if i >= 0 && s.contains(i) {
        i
    } else {
        lowest_in(s, i + 1)
    }
}

/// The lowest square in `s`, or 64 if `s` holds none.
pub open spec fn lowest_square(s: Set<int>) -> int {
    lowest_in(s, 0)
}

/// The lowest set bit of `b` is the lowest square of its set of squares.
pub proof fn lemma_first_field_is_lowest_square(b: u64)
    ensures
        first_field(b) == lowest_square(bits(b)),
{
    lemma_lowest_agree(b, 0);
}

/// The lowest square lies on the board, or is 64.
pub proof fn lemma_lowest_square_range(s: Set<int>)
    ensures
        0 <= lowest_square(s) <= 64,
{
    lemma_lowest_in_range(s, 0);
}

proof fn lemma_lowest_in_range(s: Set<int>, i: int)
    requires
        0 <= i <= 64,
    ensures
        i <= lowest_in(s, i) <= 64,
    decreases 64 - i,
{
    if i < 64 {
        lemma_lowest_in_range(s, i + 1);
    }
}

proof fn lemma_lowest_agree(b: u64, i: int)
    requires
        0 <= i,
    ensures
        lowest_from(b, i) == lowest_in(bits(b), i),
    decreases 64 - i,
{
    if i < 64 {
        lemma_lowest_agree(b, i + 1);
    }
}

proof fn lemma_lowest_from(b: u64, i: int, r: int)
    requires
        0 <= i <= r <= 64,
        forall|j: int| i <= j < r ==> !bit(b, j),
        r < 64 ==> bit(b, r),
    ensures
        lowest_from(b, i) == r,
    decreases r - i,
{
    if i < r {
        lemma_lowest_from(b, i + 1, r);
    }
}

#[derive(Clone, Debug, Copy)]
pub struct Bitboard {
    pub board: u64,
}

impl View for Bitboard {
    type V = Set<int>;

    open spec fn view(&self) -> Set<int> {
        bits(self.board)
    }
}

impl Bitboard {
    /// An empty board.
    pub fn new() -> (r: Bitboard)
        ensures
            r.board == 0,
            r@ == Set::<int>::empty(),
    {
        let r = Bitboard { board: 0 };
        assert forall|i: int| 0 <= i < 64 implies !bit(0u64, i) by {
            let j = i as u64;
            assert((0u64 >> j) & 1u64 == 0u64) by (bit_vector);
        }
        assert(r@ =~= Set::<int>::empty());
        r
    }

    /// Whether square `position` is used.
    pub fn field_is_used(&self, position: usize) -> (r: bool)
        requires
            position < 64,
        ensures
            r == self@.contains(position as int),
            r == bit(self.board, position as int),
    {
        let b = self.board;
        let r = (b >> position) & 1 != 0;
        proof {
            let p = position as u64;
            assert(((b >> p) & 1u64 != 0u64) == ((b >> p) & 1u64 == 1u64)) by (bit_vector);
        }
        r
    }

    /// The used squares in ascending order.
    pub fn get_used_fields(&self) -> (fields: Vec<usize>)
        ensures
            fields@ == fields_of(self.board),
            forall|k: int| 0 <= k < fields.len() ==> fields@[k] < 64 && self@.contains(fields@[k] as int),
            fields.len() <= 64,
    {
        let b = self.board;
        let mut fields: Vec<usize> = Vec::new();
        let mut i: usize = 0;
        while i < 64
            invariant
                i <= 64,
                b == self.board,
                fields@ == fields_below(b, i as int),
            decreases 64 - i,
        {
            let rest = b >> i;
            if rest == 0 {
                proof {
                    assert forall|j: int| i <= j < 64 implies !bit(b, j) by {
                        let t = (j - i) as u64;
                        lemma_shift_bits(b, i as u64, t);
                        assert((rest >> t) & 1u64 == 0u64) by (bit_vector)
                            requires
                                rest == 0u64,
                        ;
                    }
                    lemma_fields_below_skip(b, i as int, 64);
                    assert(fields@ == fields_of(b));
                    lemma_fields_below_props(b, 64);
                }
                return fields;
            }
            let tz = rest.trailing_zeros() as usize;
            proof {
                broadcast use vstd::std_specs::bits::axiom_u64_trailing_zeros;
                assert(tz < 64);
                let t = tz as u64;
                assert((rest >> t) & 1u64 == 1u64);
                if i + tz >= 64 {
                    lemma_shift_bits(b, i as u64, t);
                    let x = rest >> t;
                    assert(x == 0u64);
                    assert(x & 1u64 == 0u64) by (bit_vector)
                        requires
                            x == 0u64,
                    ;
                    assert(false);
                }
                lemma_shift_bits(b, i as u64, t);
                assert forall|j: int| i <= j < i + tz implies !bit(b, j) by {
                    lemma_shift_bits(b, i as u64, (j - i) as u64);
                    assert((rest >> ((j - i) as u64)) & 1u64 == 0u64);
                }
                lemma_fields_below_skip(b, i as int, (i + tz) as int);
                assert(bit(b, (i + tz) as int));
            }
            fields.push(i + tz);
            i = i + tz + 1;
        }
        proof {
            lemma_fields_below_props(b, 64);
        }
        fields
    }

    /// The lowest used square, or 64 for an empty board.
    pub fn get_first_field(&self) -> (r: usize)
        ensures
            r <= 64,
            r == 64 <==> self.board == 0,
            r < 64 ==> bit(self.board, r as int),
            forall|j: int| 0 <= j < r ==> !bit(self.board, j),
            r == first_field(self.board),
            r == lowest_square(self@),
    {
        let r = self.board.trailing_zeros() as usize;
        proof {
            lemma_first_field_is_lowest_square(self.board);
            broadcast use vstd::std_specs::bits::axiom_u64_trailing_zeros;
            lemma_lowest_from(self.board, 0, r as int);
        }
        r
    }

    /// Calls `adder` once for each used square, in ascending order.
    pub fn iterate_board<F: FnMut(usize)>(&self, mut adder: F)
        requires
            forall|p: usize| #[trigger] self@.contains(p as int) ==> call_requires(adder, (p,)),
        ensures
            forall|k: int| 0 <= k < fields_of(self.board).len() ==> call_ensures(adder, (#[trigger] fields_of(self.board)[k],), ()),
    {
        let ghost given = adder;
        let fields = self.get_used_fields();
        let mut k: usize = 0;
        while k < fields.len()
            invariant
                adder == given,
                k <= fields.len(),
                fields@ == fields_of(self.board),
                forall|j: int| 0 <= j < fields.len() ==> self@.contains(#[trigger] fields@[j] as int),
                forall|p: usize| #[trigger] self@.contains(p as int) ==> call_requires(adder, (p,)),
                forall|j: int| 0 <= j < k ==> call_ensures(adder, (#[trigger] fields@[j],), ()),
            decreases fields.len() - k,
        {
            proof {
                assert(self@.contains(fields@[k as int] as int));
            }
            adder(fields[k]);
            k = k + 1;
        }
    }

    /// Marks square `position` as used.
    pub fn set_field(&mut self, position: usize)
        requires
            position < 64,
        ensures
            final(self).board == old(self).board | (1u64 << position),
            final(self)@ == old(self)@.insert(position as int),
    {
        self.board = self.board | (1u64 << position);
        proof {
            assert forall|i: int| 0 <= i < 64 implies bit(self.board, i) == (i == position || bit(old(self).board, i)) by {
                lemma_bit_set(old(self).board, position as u64, i as u64);
            }
            assert(self@ =~= old(self)@.insert(position as int));
        }
    }

    /// Marks square `position` as free.
    pub fn remove_field(&mut self, position: usize)
        requires
            position < 64,
        ensures
            final(self).board == old(self).board & !(1u64 << position),
            final(self)@ == old(self)@.remove(position as int),
    {
        self.board = self.board & !(1u64 << position);
        proof {
            assert forall|i: int| 0 <= i < 64 implies bit(self.board, i) == (i != position && bit(old(self).board, i)) by {
                lemma_bit_clear(old(self).board, position as u64, i as u64);
            }
            assert(self@ =~= old(self)@.remove(position as int));
        }
    }
}

/// A square that was set reads back as used, a square that was removed reads back as free,
/// and every other square keeps what it had.
pub proof fn law_set_and_remove_field(b: Bitboard, position: int, other: int)
    requires
        0 <= position < 64,
        0 <= other < 64,
        other != position,
    ensures
        b@.insert(position).contains(position),
        !b@.remove(position).contains(position),
        b@.insert(position).contains(other) == b@.contains(other),
        b@.remove(position).contains(other) == b@.contains(other),
{
}

/// The list of used squares holds every used square and nothing else, in strictly ascending
/// order.
pub proof fn law_used_fields_ascending_and_complete(b: u64)
    ensures
        forall|k: int| 0 <= k < fields_of(b).len() ==> bits(b).contains(#[trigger] fields_of(b)[k] as int),
        forall|t: int| #[trigger] bits(b).contains(t) ==> fields_of(b).contains(t as usize),
        forall|i: int, j: int| 0 <= i < j < fields_of(b).len() ==> fields_of(b)[i] < fields_of(b)[j],
{
    lemma_fields_below_props(b, 64);
    assert forall|k: int| 0 <= k < fields_of(b).len() implies bits(b).contains(#[trigger] fields_of(b)[k] as int) by {
        assert(bit(b, fields_below(b, 64)[k] as int));
    }
}

/// The first used square is the lowest square of the list of used squares.
pub proof fn law_first_field_is_first_used(b: u64)
    requires
        b != 0,
    ensures
        fields_of(b).len() > 0,
        fields_of(b)[0] as int == first_field(b),
{
    lemma_fields_below_props(b, 64);
    lemma_bits_zero(b);
    assert(exists|t: int| bits(b).contains(t)) by {
        if !(exists|t: int| bits(b).contains(t)) {
            assert(bits(b) =~= Set::<int>::empty());
        }
    }
    let t = choose|t: int| bits(b).contains(t);
    assert(0 <= t < 64 && bit(b, t));
    assert(fields_below(b, 64).contains(t as usize));
    let f = fields_of(b);
    let r = f[0] as int;
    assert(bit(b, r));
    assert forall|j: int| 0 <= j < r implies !bit(b, j) by {
        if bit(b, j) {
            assert(fields_below(b, 64).contains(j as usize));
            let k = choose|k: int| 0 <= k < f.len() && f[k] == j as usize;
            if k > 0 {
                assert(f[0] < f[k]);
            }
        }
    }
    lemma_lowest_from(b, 0, r);
}

} // verus!

//! Sets of squares, kept as one bit per square in a 64-bit word.
//!
//! Bit `rank * 8 + file` of the word says whether the square is in the set.
//! The view of a set is the mathematical set of its squares; every operation
//! states what it does to that view.

use crate::square::Square;
use vstd::prelude::*;

verus! {

/// Whether bit `index` of `bits` is set.
pub open spec fn has_bit(bits: u64, index: u8) -> bool {
    (bits >> (index as u64)) & 1 == 1
}

/// A set of squares of the board.
#[derive(Clone, Copy, Debug, PartialEq, Eq, Hash, Structural)]
pub struct SquareSet {
    /// Bit `i` is set when the square with index `i` belongs to the set.
    pub bits: u64,
}

impl View for SquareSet {
    type V = Set<Square>;

    open spec fn view(&self) -> Set<Square> {
        Set::new(|sq: Square| sq.wf() && has_bit(self.bits, sq.index))
    }
}

/// The squares of the board that are not in `set`.
pub open spec fn complement_of(set: Set<Square>) -> Set<Square> {
    Set::new(|sq: Square| sq.wf() && !set.contains(sq))
}

/// The squares of `set`, mirrored across the middle of the board.
pub open spec fn flip_of(set: Set<Square>) -> Set<Square> {
    Set::new(|sq: Square| sq.wf() && set.contains(sq.flipped()))
}

/// Every element of `set` is a square of the board.
pub open spec fn within_board(set: Set<Square>) -> bool {
    forall|sq: Square| set.contains(sq) ==> sq.wf()
}

/// The 64 squares of the board, by ascending index.
pub open spec fn all_squares() -> Seq<Square> {
    Seq::new(64, |i: int| Square { index: i as u8 })
}

/// The squares of `set` that lie on the board, by ascending index.
pub open spec fn squares_of(set: Set<Square>) -> Seq<Square> {
    all_squares().filter(|sq: Square| set.contains(sq))
}

proof fn lemma_bit_none(i: u64)
    by (bit_vector)
    requires
        i < 64,
    ensures
        (0u64 >> i) & 1 != 1,
{
}

proof fn lemma_bit_or(a: u64, b: u64, i: u64)
    by (bit_vector)
    requires
        i < 64,
    ensures
        ((a | b) >> i) & 1 == 1 <==> ((a >> i) & 1 == 1 || (b >> i) & 1 == 1),
{
}

proof fn lemma_bit_and(a: u64, b: u64, i: u64)
    by (bit_vector)
    requires
        i < 64,
    ensures
        ((a & b) >> i) & 1 == 1 <==> ((a >> i) & 1 == 1 && (b >> i) & 1 == 1),
{
}

proof fn lemma_bit_not(a: u64, i: u64)
    by (bit_vector)
    requires
        i < 64,
    ensures
        ((!a) >> i) & 1 == 1 <==> (a >> i) & 1 != 1,
{
}

proof fn lemma_bit_set(a: u64, j: u64, i: u64)
    by (bit_vector)
    requires
        i < 64,
        j < 64,
    ensures
        ((a | (1u64 << j)) >> i) & 1 == 1 <==> (i == j || (a >> i) & 1 == 1),
{
}

proof fn lemma_bit_clear(a: u64, j: u64, i: u64)
    by (bit_vector)
    requires
        i < 64,
        j < 64,
    ensures
        ((a & !(1u64 << j)) >> i) & 1 == 1 <==> (i != j && (a >> i) & 1 == 1),
{
}

/// The word with the eight bytes of `a` in reverse order.
spec fn reversed_bytes(a: u64) -> u64 {
    (a << 56) | ((a & 0xff00) << 40) | ((a & 0xff_0000) << 24) | ((a & 0xff00_0000) << 8) | ((a
        >> 8) & 0xff00_0000) | ((a >> 24) & 0xff_0000) | ((a >> 40) & 0xff00) | (a >> 56)
}

proof fn lemma_bit_reversed_bytes(a: u64, i: u64)
    by (bit_vector)
    requires
        i < 64,
    ensures
        (reversed_bytes(a) >> i) & 1 == 1 <==> (a >> (i ^ 56)) & 1 == 1,
{
}

proof fn lemma_flipped_index(i: u64)
    by (bit_vector)
    requires
        i < 64,
    ensures
        i ^ 56 == (7 - i / 8) * 8 + i % 8,
{
}

proof fn lemma_bit_differs(a: u64, b: u64, i: u64)
    by (bit_vector)
    requires
        i < 64,
        ((a ^ b) >> i) & 1 == 1,
    ensures
        ((a >> i) & 1 == 1) != ((b >> i) & 1 == 1),
{
}

proof fn lemma_xor_zero(a: u64, b: u64)
    by (bit_vector)
    requires
        a ^ b == 0,
    ensures
        a == b,
{
}

/// The squares of `set` among the first `n` squares of the board, by
/// ascending index.
spec fn squares_below(set: Set<Square>, n: int) -> Seq<Square> {
    all_squares().take(n).filter(|sq: Square| set.contains(sq))
}

/// Where `set` has no square with an index from `from` up to `to`, the
/// squares below `to` are the squares below `from`.
proof fn lemma_no_squares_between(set: Set<Square>, from: int, to: int)
    requires
        0 <= from <= to <= 64,
        forall|sq: Square| from <= sq.index < to ==> !set.contains(sq),
    ensures
        squares_below(set, to) == squares_below(set, from),
    decreases to - from,
{
    if from < to {
        lemma_no_squares_between(set, from, to - 1);
        let last = Square { index: (to - 1) as u8 };
        let before = all_squares().take(to - 1);
        assert(all_squares().take(to) =~= before.push(last));
        before.lemma_filter_push(last, |sq: Square| set.contains(sq));
    }
}

/// The number of trailing zeros of a word that is not zero is the index of
/// its lowest set bit.
proof fn lemma_lowest_bit(bits: u64)
    requires
        bits != 0,
    ensures
        vstd::std_specs::bits::u64_trailing_zeros(bits) < 64,
        has_bit(bits, vstd::std_specs::bits::u64_trailing_zeros(bits) as u8),
        forall|i: u8|
            i < vstd::std_specs::bits::u64_trailing_zeros(bits) ==> !#[trigger] has_bit(bits, i),
{
    vstd::std_specs::bits::axiom_u64_trailing_zeros(bits);
    let low = vstd::std_specs::bits::u64_trailing_zeros(bits);
    assert forall|i: u8| i < low implies !#[trigger] has_bit(bits, i) by {
        assert((bits >> (i as u64)) & 1u64 == 0u64);
    }
}

/// Two sets with the same squares are the same word.
pub proof fn lemma_view_injective(a: SquareSet, b: SquareSet)
    requires
        a@ == b@,
    ensures
        a == b,
{
    let x = a.bits ^ b.bits;
    if x != 0 {
        lemma_lowest_bit(x);
        let sq = Square { index: vstd::std_specs::bits::u64_trailing_zeros(x) as u8 };
        lemma_bit_differs(a.bits, b.bits, sq.index as u64);
        assert(a@.contains(sq) == has_bit(a.bits, sq.index));
        assert(b@.contains(sq) == has_bit(b.bits, sq.index));
        assert(false);
    }
    lemma_xor_zero(a.bits, b.bits);
}

/// A set of squares of the board is finite, has at most 64 elements, and
/// `squares_of` lists each of them once.
pub proof fn lemma_within_board_finite(set: Set<Square>)
    requires
        within_board(set),
    ensures
        set.finite(),
        set.len() <= 64,
        set.len() == squares_of(set).len(),
        squares_of(set).to_set() == set,
{
    lemma_squares_of(set);
    squares_of(set).unique_seq_to_set();
    assert(squares_of(set).to_set() =~= set);
    vstd::seq_lib::seq_to_set_is_finite(squares_of(set));
    all_squares().lemma_filter_len(|sq: Square| set.contains(sq));
}

/// `squares_of(set)` lists exactly the squares of `set` that are on the board,
/// each once, by ascending index.
pub proof fn lemma_squares_of(set: Set<Square>)
    ensures
        forall|sq: Square| #[trigger]
            squares_of(set).contains(sq) <==> (sq.wf() && set.contains(sq)),
        forall|i: int, j: int|
            0 <= i < j < squares_of(set).len() ==> (#[trigger] squares_of(set)[i]).index < (
            #[trigger] squares_of(set)[j]).index,
        squares_of(set).no_duplicates(),
{
    lemma_squares_below(set, 64);
    assert(all_squares().take(64) =~= all_squares());
}

/// The statement of `lemma_squares_of` for the first `n` squares of the board.
proof fn lemma_squares_below(set: Set<Square>, n: int)
    requires
        0 <= n <= 64,
    ensures
        ({
            let found = all_squares().take(n).filter(|sq: Square| set.contains(sq));
            &&& forall|sq: Square| #[trigger]
                found.contains(sq) <==> (sq.index < n && set.contains(sq))
            &&& forall|i: int, j: int|
                0 <= i < j < found.len() ==> (#[trigger] found[i]).index < (#[trigger] found[j]).index
            &&& found.no_duplicates()
        }),
    decreases n,
{
    let pred = |sq: Square| set.contains(sq);
    let found = all_squares().take(n).filter(pred);
    if n == 0 {
        assert(all_squares().take(0) =~= Seq::<Square>::empty());
        reveal(Seq::filter);
        assert(found =~= Seq::<Square>::empty());
    } else {
        lemma_squares_below(set, n - 1);
        let before = all_squares().take(n - 1);
        let last = Square { index: (n - 1) as u8 };
        assert(all_squares().take(n) =~= before.push(last));
        before.lemma_filter_push(last, pred);
        let shorter = before.filter(pred);
        if set.contains(last) {
            assert(found == shorter.push(last));
            assert forall|sq: Square| #[trigger]
                found.contains(sq) <==> (sq.index < n && set.contains(sq)) by {
                if found.contains(sq) {
                    let k = choose|k: int| 0 <= k < found.len() && found[k] == sq;
                    if k < shorter.len() {
                        assert(shorter.contains(shorter[k]));
                    }
                }
                if sq.index < n && set.contains(sq) {
                    if sq.index < n - 1 {
                        assert(shorter.contains(sq));
                        let k = choose|k: int| 0 <= k < shorter.len() && shorter[k] == sq;
                        assert(found[k] == sq);
                    } else {
                        assert(found[shorter.len() as int] == sq);
                    }
                }
            }
            assert forall|i: int, j: int| 0 <= i < j < found.len() implies (#[trigger] found[i]).index
                < (#[trigger] found[j]).index by {
                if j == shorter.len() {
                    assert(shorter.contains(shorter[i]));
                }
            }
        } else {
            assert(found == shorter);
        }
    }
}

impl SquareSet {
    /// The set with no square.
    pub fn empty() -> (set: SquareSet)
        ensures
            set@ == Set::<Square>::empty(),
    {
        let set = SquareSet { bits: 0 };
        proof {
            assert forall|sq: Square| !set@.contains(sq) by {
                if sq.wf() {
                    lemma_bit_none(sq.index as u64);
                }
            }
            assert(set@ =~= Set::<Square>::empty());
        }
        set
    }

    /// Whether `sq` is in the set.
    pub fn contains(&self, sq: Square) -> (found: bool)
        requires
            sq.wf(),
        ensures
            found == self@.contains(sq),
    {
        (self.bits >> (sq.index as u64)) & 1 == 1
    }

    /// Puts `sq` into the set.
    pub fn insert(&mut self, sq: Square)
        requires
            sq.wf(),
        ensures
            final(self)@ == old(self)@.insert(sq),
    {
        let ghost before = *self;
        self.bits = self.bits | (1u64 << (sq.index as u64));
        proof {
            assert forall|other: Square| self@.contains(other) == before@.insert(sq).contains(
                other,
            ) by {
                if other.wf() {
                    lemma_bit_set(before.bits, sq.index as u64, other.index as u64);
                }
            }
            assert(self@ =~= before@.insert(sq));
        }
    }

    /// Takes `sq` out of the set.
    pub fn remove(&mut self, sq: Square)
        requires
            sq.wf(),
        ensures
            final(self)@ == old(self)@.remove(sq),
    {
        let ghost before = *self;
        self.bits = self.bits & !(1u64 << (sq.index as u64));
        proof {
            assert forall|other: Square| self@.contains(other) == before@.remove(sq).contains(
                other,
            ) by {
                if other.wf() {
                    lemma_bit_clear(before.bits, sq.index as u64, other.index as u64);
                }
            }
            assert(self@ =~= before@.remove(sq));
        }
    }

    /// The squares that are in either set.
    pub fn union(self, other: SquareSet) -> (set: SquareSet)
        ensures
            set@ == self@.union(other@),
    {
        let set = SquareSet { bits: self.bits | other.bits };
        proof {
            assert forall|sq: Square| set@.contains(sq) == self@.union(other@).contains(sq) by {
                if sq.wf() {
                    lemma_bit_or(self.bits, other.bits, sq.index as u64);
                }
            }
            assert(set@ =~= self@.union(other@));
        }
        set
    }

    /// The squares that are in both sets.
    pub fn intersect(self, other: SquareSet) -> (set: SquareSet)
        ensures
            set@ == self@.intersect(other@),
    {
        let set = SquareSet { bits: self.bits & other.bits };
        proof {
            assert forall|sq: Square| set@.contains(sq) == self@.intersect(other@).contains(
                sq,
            ) by {
                if sq.wf() {
                    lemma_bit_and(self.bits, other.bits, sq.index as u64);
                }
            }
            assert(set@ =~= self@.intersect(other@));
        }
        set
    }

    /// The squares of the board that are not in the set.
    pub fn complement(self) -> (set: SquareSet)
        ensures
            set@ == complement_of(self@),
    {
        let set = SquareSet { bits: !self.bits };
        proof {
            assert forall|sq: Square| set@.contains(sq) == complement_of(self@).contains(sq) by {
                if sq.wf() {
                    lemma_bit_not(self.bits, sq.index as u64);
                }
            }
            assert(set@ =~= complement_of(self@));
        }
        set
    }

    /// The set mirrored across the middle of the board: each square moves
    /// from rank `r` to rank `7 - r` on its file.
    pub fn flip_vertical(self) -> (set: SquareSet)
        ensures
            set@ == flip_of(self@),
    {
        let a = self.bits;
        let set = SquareSet {
            bits: (a << 56) | ((a & 0xff00) << 40) | ((a & 0xff_0000) << 24) | ((a & 0xff00_0000)
                << 8) | ((a >> 8) & 0xff00_0000) | ((a >> 24) & 0xff_0000) | ((a >> 40) & 0xff00)
                | (a >> 56),
        };
        proof {
            assert forall|sq: Square| set@.contains(sq) == flip_of(self@).contains(sq) by {
                if sq.wf() {
                    lemma_bit_reversed_bytes(a, sq.index as u64);
                    lemma_flipped_index(sq.index as u64);
                }
            }
            assert(set@ =~= flip_of(self@));
        }
        set
    }

    /// Whether the set has no square.
    pub fn is_empty(&self) -> (none: bool)
        ensures
            none == self@.is_empty(),
    {
        proof {
            let nothing = SquareSet { bits: 0 };
            assert forall|sq: Square| !nothing@.contains(sq) by {
                if sq.wf() {
                    lemma_bit_none(sq.index as u64);
                }
            }
            assert(nothing@ =~= Set::<Square>::empty());
            if self@.is_empty() {
                lemma_view_injective(*self, nothing);
            }
        }
        self.bits == 0
    }

    /// The number of squares in the set.
    pub fn num_pieces(&self) -> (count: usize)
        ensures
            count == self@.len(),
            count <= 64,
    {
        let mut count: usize = 0;
        let mut rest: u64 = self.bits;
        let ghost mut done: int = 0;
        let ghost mut seen: Set<Square> = Set::empty();
        while rest != 0
            invariant
                0 <= done <= 64,
                count <= done,
                seen.finite(),
                count == seen.len(),
                forall|sq: Square| seen.contains(sq) <==> (self@.contains(sq) && sq.index < done),
                forall|i: u8|
                    i < 64 ==> (#[trigger] has_bit(rest, i) <==> i >= done && has_bit(self.bits, i)),
            decreases 64 - done,
        {
            let low = rest.trailing_zeros();
            proof {
                lemma_lowest_bit(rest);
                assert(has_bit(rest, low as u8));
            }
            let sq = Square { index: low as u8 };
            let ghost before = rest;
            rest = rest & !(1u64 << (low as u64));
            count = count + 1;
            proof {
                assert forall|i: u8| i < 64 implies (#[trigger] has_bit(rest, i) <==> i > low
                    && has_bit(self.bits, i)) by {
                    lemma_bit_clear(before, low as u64, i as u64);
                    assert(has_bit(before, i) <==> i >= done && has_bit(self.bits, i));
                    assert(has_bit(before, low as u8));
                }
                assert forall|other: Square| done <= other.index < low implies !self@.contains(
                    other,
                ) by {
                    assert(!has_bit(before, other.index));
                }
                seen = seen.insert(sq);
                done = low + 1;
            }
        }
        proof {
            assert forall|sq: Square| self@.contains(sq) implies seen.contains(sq) by {
                lemma_bit_none(sq.index as u64);
                assert(!has_bit(rest, sq.index));
            }
            assert(seen =~= self@);
        }
        count
    }

    /// The squares of the set, by ascending index.
    pub fn pieces(&self) -> (squares: Vec<Square>)
        ensures
            squares@ == squares_of(self@),
            forall|i: int| 0 <= i < squares.len() ==> (#[trigger] squares[i]).wf(),
    {
        let mut squares: Vec<Square> = Vec::new();
        let mut rest: u64 = self.bits;
        let ghost mut done: int = 0;
        proof {
            lemma_no_squares_between(self@, 0, 0);
            assert(all_squares().take(0) =~= Seq::<Square>::empty());
            reveal(Seq::filter);
        }
        while rest != 0
            invariant
                0 <= done <= 64,
                squares@ == squares_below(self@, done),
                forall|i: int| 0 <= i < squares.len() ==> (#[trigger] squares[i]).wf(),
                forall|i: u8|
                    i < 64 ==> (#[trigger] has_bit(rest, i) <==> i >= done && has_bit(self.bits, i)),
            decreases 64 - done,
        {
            let low = rest.trailing_zeros();
            proof {
                lemma_lowest_bit(rest);
                assert(has_bit(rest, low as u8));
            }
            let sq = Square { index: low as u8 };
            let ghost before = rest;
            rest = rest & !(1u64 << (low as u64));
            squares.push(sq);
            proof {
                assert forall|i: u8| i < 64 implies (#[trigger] has_bit(rest, i) <==> i > low
                    && has_bit(self.bits, i)) by {
                    lemma_bit_clear(before, low as u64, i as u64);
                    assert(has_bit(before, i) <==> i >= done && has_bit(self.bits, i));
                    assert(has_bit(before, low as u8));
                }
                assert forall|other: Square| done <= other.index < low implies !self@.contains(
                    other,
                ) by {
                    assert(!has_bit(before, other.index));
                }
                lemma_no_squares_between(self@, done, low as int);
                let pred = |sq: Square| self@.contains(sq);
                assert(all_squares().take(low + 1) =~= all_squares().take(low as int).push(sq));
                all_squares().take(low as int).lemma_filter_push(sq, pred);
                done = low + 1;
            }
        }
        proof {
            assert forall|other: Square| done <= other.index < 64 implies !self@.contains(
                other,
            ) by {
                lemma_bit_none(other.index as u64);
                assert(!has_bit(rest, other.index));
            }
            lemma_no_squares_between(self@, done, 64);
            assert(all_squares().take(64) =~= all_squares());
        }
        squares
    }
}

} // verus!
